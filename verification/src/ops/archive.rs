//! Archiving: files are moved into a dated directory under the archive
//! base, and each move is recorded.
//!
//! The moves themselves are made by the caller; what is decided before a
//! move and what is recorded after it is decided here.

use crate::clock::{day_text, format_day, LAST_PLAIN_INSTANT};
use crate::db::database::{action_is, relocated, Database, StoreError};
use crate::models::{ActionType, NewAction};
use crate::ops::error::OpsError;
use crate::ops::space::{sizes_sum, SpaceManager};
use crate::paths::{join, joined};
use crate::text::{decimal_string, decimal_text, join2};
use vstd::prelude::*;
use vstd::string::StringExecFns;

verus! {

/// How archiving is set up.
#[derive(Debug, Clone)]
pub struct ArchiveConfig {
    /// The directory under which the dated directories are made.
    pub base_path: String,
    /// The share of the size of the files, in hundredths, that must be
    /// free on top of that size.
    pub free_space_buffer_percent: u64,
    /// The size from which progress is reported, in bytes.
    pub progress_threshold: u64,
}

/// The archive base for a home directory: `Archive/WhiteSpace` under it on
/// Windows and `Archive/White Space` elsewhere; `./Archive` where there is
/// no home directory.
pub open spec fn default_base(home: Option<String>, windows: bool) -> Seq<char> {
    match home {
        Some(h) => joined(
            joined(h@, "Archive"@),
            if windows {
                "WhiteSpace"@
            } else {
                "White Space"@
            },
        ),
        None => "./Archive"@,
    }
}

impl ArchiveConfig {
    /// The setup for the home directory `home`: the default base, a buffer
    /// of five hundredths, progress from 500 MiB on.
    pub fn default_for(home: &Option<String>, windows: bool) -> (out: ArchiveConfig)
        ensures
            out.base_path@ == default_base(*home, windows),
            out.free_space_buffer_percent == 5,
            out.progress_threshold == 524288000,
    {
        let base_path = match home {
            Some(h) => {
                let archive = join(h.as_str(), "Archive");
                if windows {
                    join(archive.as_str(), "WhiteSpace")
                } else {
                    join(archive.as_str(), "White Space")
                }
            },
            None => String::from_str("./Archive"),
        };
        ArchiveConfig { base_path, free_space_buffer_percent: 5, progress_threshold: 524288000 }
    }

    /// The directory for the files archived on the day of `now`: the base
    /// and under it the day as `YYYY-MM-DD`. There is one for every instant
    /// from the epoch to the end of the year 9999.
    pub fn get_daily_path(&self, now: i64) -> (out: Option<String>)
        ensures
            out matches Some(p) ==> p@ == joined(self.base_path@, day_text(now)),
            0 <= now <= LAST_PLAIN_INSTANT ==> out is Some,
    {
        match format_day(now) {
            Some(day) => Some(join(self.base_path.as_str(), day.as_str())),
            None => None,
        }
    }
}

/// What an archive run did.
#[derive(Debug, Clone)]
pub struct ArchiveResult {
    pub batch_id: String,
    pub files_archived: usize,
    pub total_bytes: u64,
    pub duration_ms: u64,
    pub errors: Vec<String>,
}

/// What the caller found out before an archive run.
#[derive(Debug)]
pub struct PreflightFacts {
    /// Why the parent of the dated directory could not be made, if it
    /// could not.
    pub parent_error: Option<String>,
    /// Why a file could not be written to the dated directory, if none
    /// could.
    pub write_error: Option<String>,
    /// For each file, in order: its size, or why its size could not be
    /// read.
    pub sizes: Vec<Result<u64, String>>,
    /// The free space on the volume of the archive, or why it could not be
    /// read.
    pub available: Result<u64, OpsError>,
    /// For each file, in the same order: its path and whether it is
    /// there.
    pub sources: Vec<(String, bool)>,
}

/// The space that must be free for files of the size `required`: that
/// size and on top of it `percent` hundredths of it, rounded down; capped
/// at the largest `u64`.
pub open spec fn required_with_buffer(required: u64, percent: u64) -> nat {
    let total = required + (required * percent) / 100;
    if total > u64::MAX {
        u64::MAX as nat
    } else {
        total as nat
    }
}

/// The position of the first file whose size could not be read.
pub open spec fn first_unreadable(sizes: Seq<Result<u64, String>>) -> int {
    choose|i: int|
        0 <= i < sizes.len() && (#[trigger] sizes[i]) is Err && forall|j: int|
            0 <= j < i ==> (#[trigger] sizes[j]) is Ok
}

/// The position of the first file that is not there.
pub open spec fn first_missing(sources: Seq<(String, bool)>) -> int {
    choose|i: int|
        0 <= i < sources.len() && !(#[trigger] sources[i]).1 && forall|j: int|
            0 <= j < i ==> (#[trigger] sources[j]).1
}

/// The sizes that could be read.
pub open spec fn readable_sizes(sizes: Seq<Result<u64, String>>) -> Seq<u64> {
    Seq::new(
        sizes.len(),
        |i: int|
            if sizes[i] is Ok {
                sizes[i]->Ok_0
            } else {
                0
            },
    )
}

/// Which check of the preflight fails first, from 1 to 6 in their order;
/// 0 where all pass.
///
/// The checks: the parent of the dated directory can be made; a file can
/// be written there; the size of every file can be read; the free space
/// can be read; the free space covers the files and the buffer; every file
/// is there.
pub open spec fn preflight_verdict(facts: PreflightFacts, percent: u64) -> int {
    if facts.parent_error is Some {
        1
    } else if facts.write_error is Some {
        2
    } else if exists|i: int| 0 <= i < facts.sizes@.len() && (#[trigger] facts.sizes@[i]) is Err {
        3
    } else if facts.available is Err {
        4
    } else if facts.available->Ok_0 < required_with_buffer(
        sizes_sum(readable_sizes(facts.sizes@)) as u64,
        percent,
    ) {
        5
    } else if exists|i: int| 0 <= i < facts.sources@.len() && !(#[trigger] facts.sources@[i]).1 {
        6
    } else {
        0
    }
}

/// Why the record of a move cannot be made, from 1 to 4; 0 where it can.
///
/// The reasons: no file entry has the source path; another file entry
/// has the destination path; the destination path is empty; no action
/// identifier is left.
pub open spec fn record_verdict(db: &Database, src: Seq<char>, dst: Seq<char>) -> int {
    if !db.has_path(src) {
        1
    } else if db.has_path(dst) && db.index_of_path(dst) != db.index_of_path(src) {
        2
    } else if dst.len() == 0 {
        3
    } else if db.next_action_id() == i64::MAX {
        4
    } else {
        0
    }
}

/// The catalog `post` is the catalog `pre` with the archiving of the file
/// at `src` to `dst` in the batch `batch` recorded at `now`: an archive
/// action is appended, and the file entry has the path `dst`.
pub open spec fn archive_logged(
    pre: &Database,
    post: &Database,
    src: Seq<char>,
    dst: Seq<char>,
    batch: Seq<char>,
    now: i64,
) -> bool {
    let i = pre.index_of_path(src);
    &&& pre.has_path(src)
    &&& post.actions().len() == pre.actions().len() + 1
    &&& post.actions().drop_last() == pre.actions()
    &&& action_is(
        post.actions().last(),
        pre.next_action_id(),
        pre.files()[i].id->0,
        ActionType::Archive,
        batch,
        src,
        dst,
        "archive_manager"@,
        now,
    )
    &&& post.next_action_id() == pre.next_action_id() + 1
    &&& post.files().len() == pre.files().len()
    &&& relocated(pre.files()[i], post.files()[i], dst)
    &&& forall|k: int|
        0 <= k < pre.files().len() && k != i ==> post.files()[k] == pre.files()[k]
}

/// Decides what an archive run may do and records what it did.
#[derive(Debug, Clone)]
pub struct ArchiveManager {
    pub config: ArchiveConfig,
    pub space_manager: SpaceManager,
}

impl ArchiveManager {
    pub fn new(config: ArchiveConfig) -> (out: ArchiveManager)
        ensures
            out.config == config,
    {
        ArchiveManager { config, space_manager: SpaceManager::new() }
    }

    pub fn update_config(&mut self, config: ArchiveConfig)
        ensures
            final(self).config == config,
    {
        self.config = config;
    }

    pub fn get_config(&self) -> (out: &ArchiveConfig)
        ensures
            *out == self.config,
    {
        &self.config
    }

    /// The identifier of a batch started at `now`: `archive_` and the
    /// number of milliseconds; zero for an instant before the epoch.
    pub fn generate_batch_id(&self, now: i64) -> (out: String)
        ensures
            out@ == "archive_"@ + decimal_text(
                if now >= 0 {
                    now as nat
                } else {
                    0
                },
            ),
    {
        let ms: u64 = if now >= 0 {
            now as u64
        } else {
            0
        };
        join2("archive_", decimal_string(ms).as_str())
    }

    /// An empty result for the batch `batch_id`.
    pub fn begin(&self, batch_id: String) -> (out: ArchiveResult)
        ensures
            out.batch_id == batch_id,
            out.files_archived == 0,
            out.total_bytes == 0,
            out.duration_ms == 0,
            out.errors@.len() == 0,
    {
        ArchiveResult {
            batch_id,
            files_archived: 0,
            total_bytes: 0,
            duration_ms: 0,
            errors: Vec::new(),
        }
    }

    /// The sum of the sizes, capped at the largest `u64`.
    pub fn calculate_total_size(&self, sizes: &Vec<u64>) -> (out: u64)
        ensures
            out == sizes_sum(sizes@),
    {
        self.space_manager.estimate_cleanup_impact(sizes)
    }

    /// Whether `available` bytes are free enough for files of the size
    /// `required`: the size and the buffer on top of it must fit.
    pub fn check_free_space(&self, available: u64, required: u64) -> (out: Result<(), OpsError>)
        ensures
            match out {
                Ok(_) => available >= required_with_buffer(
                    required,
                    self.config.free_space_buffer_percent,
                ),
                Err(e) => {
                    &&& available < required_with_buffer(
                        required,
                        self.config.free_space_buffer_percent,
                    )
                    &&& e is ArchiveError
                    &&& e.detail() == "Insufficient disk space. Required: "@ + decimal_text(
                        required_with_buffer(required, self.config.free_space_buffer_percent),
                    ) + " bytes, Available: "@ + decimal_text(available as nat) + " bytes"@
                },
            },
    {
        let needed = self.needed_space(required);
        if available < needed {
            let a = join2("Insufficient disk space. Required: ", decimal_string(needed).as_str());
            let b = join2(a.as_str(), " bytes, Available: ");
            let c = join2(b.as_str(), decimal_string(available).as_str());
            return Err(OpsError::ArchiveError(join2(c.as_str(), " bytes")));
        }
        Ok(())
    }

    fn needed_space(&self, required: u64) -> (out: u64)
        ensures
            out == required_with_buffer(required, self.config.free_space_buffer_percent),
    {
        let percent = self.config.free_space_buffer_percent;
        assert((required as u128) * (percent as u128) <= 0xffff_ffff_ffff_ffff
            * 0xffff_ffff_ffff_ffff) by (nonlinear_arith)
            requires
                required <= 0xffff_ffff_ffff_ffff,
                percent <= 0xffff_ffff_ffff_ffff,
        ;
        let buffer: u128 = (required as u128) * (percent as u128) / 100;
        let total: u128 = required as u128 + buffer;
        if total > u64::MAX as u128 {
            u64::MAX
        } else {
            total as u64
        }
    }

    /// Whether the size of the copy is the size of the source.
    pub fn verify_copy(&self, source_size: u64, dest_size: u64) -> (out: Result<(), OpsError>)
        ensures
            match out {
                Ok(_) => source_size == dest_size,
                Err(e) => source_size != dest_size && e is ArchiveError && e.detail()
                    == "Copy verification failed: source size "@ + decimal_text(source_size as nat)
                    + " != dest size "@ + decimal_text(dest_size as nat),
            },
    {
        if source_size != dest_size {
            let a = join2(
                "Copy verification failed: source size ",
                decimal_string(source_size).as_str(),
            );
            let b = join2(a.as_str(), " != dest size ");
            return Err(OpsError::ArchiveError(join2(b.as_str(), decimal_string(dest_size).as_str())));
        }
        Ok(())
    }

    /// The checks before an archive run, in their order; the first that
    /// fails decides the error.
    pub fn preflight_checks(&self, facts: &PreflightFacts) -> (out: Result<(), OpsError>)
        ensures
            out is Ok <==> preflight_verdict(*facts, self.config.free_space_buffer_percent) == 0,
            out matches Err(e) ==> {
                let v = preflight_verdict(*facts, self.config.free_space_buffer_percent);
                &&& v == 4 ==> e == facts.available->Err_0
                &&& v != 4 ==> e is ArchiveError
                &&& v == 1 ==> e.detail() == "Failed to create parent directory: "@
                    + facts.parent_error->0@
                &&& v == 2 ==> e.detail() == "No write permission to archive directory: "@
                    + facts.write_error->0@
                &&& v == 3 ==> e.detail() == "Failed to read file metadata: "@ + facts.sizes@[first_unreadable(
                    facts.sizes@,
                )]->Err_0@
                &&& v == 6 ==> e.detail() == "Source file does not exist: "@ + facts.sources@[first_missing(
                    facts.sources@,
                )].0@
            },
    {
        match &facts.parent_error {
            Some(why) => {
                return Err(
                    OpsError::ArchiveError(join2("Failed to create parent directory: ", why.as_str())),
                );
            },
            None => {},
        }
        match &facts.write_error {
            Some(why) => {
                return Err(
                    OpsError::ArchiveError(
                        join2("No write permission to archive directory: ", why.as_str()),
                    ),
                );
            },
            None => {},
        }
        let mut sizes: Vec<u64> = Vec::new();
        let mut i: usize = 0;
        while i < facts.sizes.len()
            invariant
                facts.parent_error is None,
                facts.write_error is None,
                i <= facts.sizes.len(),
                sizes@.len() == i,
                forall|j: int| 0 <= j < i ==> (#[trigger] facts.sizes@[j]) is Ok,
                forall|j: int| 0 <= j < i ==> sizes@[j] == readable_sizes(facts.sizes@)[j],
            decreases facts.sizes.len() - i,
        {
            match &facts.sizes[i] {
                Ok(n) => {
                    sizes.push(*n);
                },
                Err(why) => {
                    proof {
                        let c = first_unreadable(facts.sizes@);
                        assert(facts.sizes@[i as int] is Err);
                        assert(0 <= c < facts.sizes@.len() && facts.sizes@[c] is Err && forall|
                            j: int,
                        | 0 <= j < c ==> (#[trigger] facts.sizes@[j]) is Ok);
                        assert(c == i);
                    }
                    return Err(
                        OpsError::ArchiveError(join2("Failed to read file metadata: ", why.as_str())),
                    );
                },
            }
            i = i + 1;
        }
        assert(sizes@ =~= readable_sizes(facts.sizes@));
        let total = self.calculate_total_size(&sizes);
        let available = match &facts.available {
            Ok(n) => *n,
            Err(e) => {
                return Err(duplicate_error(e));
            },
        };
        let needed = self.needed_space(total);
        if available < needed {
            return self.check_free_space(available, total);
        }
        let mut i: usize = 0;
        while i < facts.sources.len()
            invariant
                facts.parent_error is None,
                facts.write_error is None,
                forall|j: int| 0 <= j < facts.sizes@.len() ==> (#[trigger] facts.sizes@[j]) is Ok,
                facts.available is Ok,
                facts.available->Ok_0 >= required_with_buffer(
                    sizes_sum(readable_sizes(facts.sizes@)) as u64,
                    self.config.free_space_buffer_percent,
                ),
                i <= facts.sources.len(),
                forall|j: int| 0 <= j < i ==> (#[trigger] facts.sources@[j]).1,
            decreases facts.sources.len() - i,
        {
            if !facts.sources[i].1 {
                proof {
                    let c = first_missing(facts.sources@);
                    assert(!facts.sources@[i as int].1);
                    assert(0 <= c < facts.sources@.len() && !facts.sources@[c].1 && forall|j: int|
                        0 <= j < c ==> (#[trigger] facts.sources@[j]).1);
                    assert(c == i);
                }
                return Err(
                    OpsError::ArchiveError(
                        join2("Source file does not exist: ", facts.sources[i].0.as_str()),
                    ),
                );
            }
            i = i + 1;
        }
        Ok(())
    }

    /// Records that the file at `src_path` was moved to `dst_path` in the
    /// batch `batch_id` at `now`: an archive action is appended and the path
    /// of the file entry becomes `dst_path`. Fails, changing nothing, where
    /// no file entry has the source path, another one has the destination
    /// path, the destination path is empty, or no action identifier is
    /// left.
    pub fn log_archive_action(
        &self,
        src_path: &str,
        dst_path: &str,
        batch_id: &str,
        db: &mut Database,
        now: i64,
    ) -> (out: Result<(), OpsError>)
        requires
            old(db).wf(),
        ensures
            final(db).wf(),
            final(db).roots() == old(db).roots(),
            final(db).next_root_id() == old(db).next_root_id(),
            final(db).prefs() == old(db).prefs(),
            final(db).slots() == old(db).slots(),
            final(db).next_file_id() == old(db).next_file_id(),
            final(db).next_staged_id() == old(db).next_staged_id(),
            out is Ok <==> record_verdict(old(db), src_path@, dst_path@) == 0,
            out is Ok ==> archive_logged(old(db), final(db), src_path@, dst_path@, batch_id@, now),
            out matches Err(e) ==> {
                let v = record_verdict(old(db), src_path@, dst_path@);
                &&& final(db).files() == old(db).files()
                &&& final(db).actions() == old(db).actions()
                &&& final(db).next_action_id() == old(db).next_action_id()
                &&& e is ArchiveError
                &&& v == 1 ==> e.detail() == "File not found in database: "@ + src_path@
                &&& v == 2 ==> e.detail()
                    == "Failed to update file location: unique constraint failed"@
                &&& v == 3 ==> e.detail() == "Failed to log action: check constraint failed"@
                &&& v == 4 ==> e.detail() == "Failed to log action: no identifier left"@
            },
    {
        let file_id = match db.get_file_id_by_path(src_path) {
            Some(id) => id,
            None => {
                return Err(OpsError::ArchiveError(join2("File not found in database: ", src_path)));
            },
        };
        proof {
            let i = db.index_of_path(src_path@);
            assert(0 <= i < db.files().len() && db.files()[i].path@ == src_path@);
            assert(db.files()[i].id == Some(file_id));
            assert(db.has_id(file_id));
            let k = db.index_of_id(file_id);
            if k < i {
                assert(db.files()[k].id->0 < db.files()[i].id->0);
            } else if i < k {
                assert(db.files()[i].id->0 < db.files()[k].id->0);
            }
        }
        match db.get_file_id_by_path(dst_path) {
            Some(other) => {
                if other != file_id {
                    proof {
                        let i = db.index_of_path(src_path@);
                        let j = db.index_of_path(dst_path@);
                        assert(db.files()[j].id == Some(other));
                    }
                    return Err(
                        OpsError::ArchiveError(
                            String::from_str(
                                "Failed to update file location: unique constraint failed",
                            ),
                        ),
                    );
                }
                proof {
                    let i = db.index_of_path(src_path@);
                    let j = db.index_of_path(dst_path@);
                    assert(0 <= j < db.files().len() && db.files()[j].path@ == dst_path@);
                    assert(db.files()[j].id == Some(file_id));
                    if j < i {
                        assert(db.files()[j].id->0 < db.files()[i].id->0);
                    } else if i < j {
                        assert(db.files()[i].id->0 < db.files()[j].id->0);
                    }
                }
            },
            None => {},
        }
        let action = NewAction {
            file_id,
            action: ActionType::Archive,
            batch_id: Some(String::from_str(batch_id)),
            src_path: Some(String::from_str(src_path)),
            dst_path: Some(String::from_str(dst_path)),
            origin: Some(String::from_str("archive_manager")),
            note: None,
        };
        match db.insert_action(&action, now) {
            Ok(_) => {},
            Err(StoreError::CheckViolation) => {
                return Err(
                    OpsError::ArchiveError(
                        String::from_str("Failed to log action: check constraint failed"),
                    ),
                );
            },
            Err(_) => {
                return Err(
                    OpsError::ArchiveError(
                        String::from_str("Failed to log action: no identifier left"),
                    ),
                );
            },
        }
        proof {
            assert(db.actions().drop_last() =~= old(db).actions());
            assert(db.has_id(file_id) == old(db).has_id(file_id));
            assert(db.has_path(dst_path@) == old(db).has_path(dst_path@));
        }
        let moved = db.update_file_location(file_id, dst_path);
        assert(moved is Ok);
        Ok(())
    }

    /// Adds a file that was archived, `bytes` large, to the result.
    pub fn record_success(&self, result: &mut ArchiveResult, bytes: u64)
        requires
            old(result).files_archived < usize::MAX,
        ensures
            final(result).files_archived == old(result).files_archived + 1,
            final(result).total_bytes == (if old(result).total_bytes + bytes > u64::MAX {
                u64::MAX
            } else {
                (old(result).total_bytes + bytes) as u64
            }),
            final(result).errors == old(result).errors,
            final(result).batch_id == old(result).batch_id,
            final(result).duration_ms == old(result).duration_ms,
    {
        result.files_archived = result.files_archived + 1;
        result.total_bytes = result.total_bytes.saturating_add(bytes);
    }

    /// Adds a file that could not be archived, and why, to the result.
    pub fn record_failure(&self, result: &mut ArchiveResult, file_path: &str, error: &OpsError)
        ensures
            final(result).errors@.len() == old(result).errors@.len() + 1,
            final(result).errors@.drop_last() == old(result).errors@,
            final(result).errors@.last()@ == "Failed to archive "@ + file_path@ + ": "@
                + error.label() + error.detail(),
            final(result).files_archived == old(result).files_archived,
            final(result).total_bytes == old(result).total_bytes,
            final(result).batch_id == old(result).batch_id,
            final(result).duration_ms == old(result).duration_ms,
    {
        let a = join2("Failed to archive ", file_path);
        let b = join2(a.as_str(), ": ");
        let line = join2(b.as_str(), error.to_string().as_str());
        let ghost before = result.errors@;
        result.errors.push(line);
        assert(result.errors@.drop_last() =~= before);
    }
}

/// What became of the move of one file of a run.
#[derive(Debug)]
pub struct MoveAttempt {
    /// The path of the file before the run.
    pub source: String,
    /// Where the file went and how many bytes it holds, or why it did
    /// not move.
    pub outcome: Result<(String, u64), OpsError>,
}

/// The detail of the error for a move that cannot be recorded.
pub open spec fn record_refusal(verdict: int, src: Seq<char>) -> Seq<char> {
    if verdict == 1 {
        "File not found in database: "@ + src
    } else if verdict == 2 {
        "Failed to update file location: unique constraint failed"@
    } else if verdict == 3 {
        "Failed to log action: check constraint failed"@
    } else {
        "Failed to log action: no identifier left"@
    }
}

/// The result `post` is `pre` with one more archived file of `bytes`
/// bytes; the sum is capped.
pub open spec fn one_more_archived(pre: ArchiveResult, post: ArchiveResult, bytes: u64) -> bool {
    &&& post.files_archived == pre.files_archived + 1
    &&& post.total_bytes == (if pre.total_bytes + bytes > u64::MAX {
        u64::MAX
    } else {
        (pre.total_bytes + bytes) as u64
    })
    &&& post.errors == pre.errors
    &&& post.batch_id == pre.batch_id
    &&& post.duration_ms == pre.duration_ms
}

/// The result `post` is `pre` with one more line that says that the file
/// at `src` was not archived, with the kind of the error in words and its
/// detail.
pub open spec fn one_more_unarchived(
    pre: ArchiveResult,
    post: ArchiveResult,
    src: Seq<char>,
    kind: Seq<char>,
    detail: Seq<char>,
) -> bool {
    &&& post.errors@.len() == pre.errors@.len() + 1
    &&& post.errors@.drop_last() == pre.errors@
    &&& post.errors@.last()@ == "Failed to archive "@ + src + ": "@ + kind + detail
    &&& post.files_archived == pre.files_archived
    &&& post.total_bytes == pre.total_bytes
    &&& post.batch_id == pre.batch_id
    &&& post.duration_ms == pre.duration_ms
}

/// One step of a run: a file that moved and whose move can be recorded is
/// recorded and counted; for any other the catalog stays as it is and a
/// line says why.
pub open spec fn archive_step(
    pre: (Database, ArchiveResult),
    post: (Database, ArchiveResult),
    m: MoveAttempt,
    batch: Seq<char>,
    now: i64,
) -> bool {
    match m.outcome {
        Ok(moved) => {
            let verdict = record_verdict(&pre.0, m.source@, moved.0@);
            if verdict == 0 {
                &&& archive_logged(&pre.0, &post.0, m.source@, moved.0@, batch, now)
                &&& post.0.roots() == pre.0.roots()
                &&& post.0.next_root_id() == pre.0.next_root_id()
                &&& post.0.prefs() == pre.0.prefs()
                &&& post.0.slots() == pre.0.slots()
                &&& post.0.next_file_id() == pre.0.next_file_id()
                &&& post.0.next_staged_id() == pre.0.next_staged_id()
                &&& one_more_archived(pre.1, post.1, moved.1)
            } else {
                &&& post.0.same_files(&pre.0)
                &&& post.0.same_log_and_settings(&pre.0)
                &&& one_more_unarchived(
                    pre.1,
                    post.1,
                    m.source@,
                    "Archive Error: "@,
                    record_refusal(verdict, m.source@),
                )
            }
        },
        Err(e) => {
            &&& post.0.same_files(&pre.0)
            &&& post.0.same_log_and_settings(&pre.0)
            &&& one_more_unarchived(pre.1, post.1, m.source@, e.label(), e.detail())
        },
    }
}

/// The states follow one from the other by the first `n` steps of a run.
pub open spec fn archive_chain(
    states: Seq<(Database, ArchiveResult)>,
    moves: Seq<MoveAttempt>,
    batch: Seq<char>,
    now: i64,
    n: int,
) -> bool {
    forall|k: int|
        0 <= k < n ==> #[trigger] archive_step(states[k], states[k + 1], moves[k], batch, now)
}

/// The catalog `post` and the result `out` follow from the catalog `pre`
/// and an empty result for the batch by taking the files of `moves` in
/// turn.
pub open spec fn archived_in_turn(
    pre: &Database,
    post: &Database,
    out: ArchiveResult,
    moves: Seq<MoveAttempt>,
    batch: Seq<char>,
    now: i64,
) -> bool {
    exists|states: Seq<(Database, ArchiveResult)>|
        {
            &&& states.len() == moves.len() + 1
            &&& states[0].0 == *pre
            &&& states[0].1.files_archived == 0
            &&& states[0].1.total_bytes == 0
            &&& states[0].1.errors@.len() == 0
            &&& states[0].1.batch_id@ == batch
            &&& states[0].1.duration_ms == out.duration_ms
            &&& states[moves.len() as int] == (*post, out)
            &&& #[trigger] archive_chain(states, moves, batch, now, moves.len() as int)
        }
}

impl ArchiveManager {
    /// Notes what an archive run did. The files were taken in the order
    /// of `moves`: each that moved is recorded in the batch `batch_id` at
    /// `now` and counted with its size; each that did not move, or whose
    /// move cannot be recorded, gets a line in the errors, and the run
    /// goes on with the next file.
    pub fn archive_files(
        &self,
        moves: &Vec<MoveAttempt>,
        batch_id: &str,
        db: &mut Database,
        now: i64,
        duration_ms: u64,
    ) -> (out: ArchiveResult)
        requires
            old(db).wf(),
        ensures
            final(db).wf(),
            out.batch_id@ == batch_id@,
            out.duration_ms == duration_ms,
            out.files_archived + out.errors@.len() == moves@.len(),
            archived_in_turn(old(db), final(db), out, moves@, batch_id@, now),
    {
        let mut result = self.begin(String::from_str(batch_id));
        result.duration_ms = duration_ms;
        let ghost mut states: Seq<(Database, ArchiveResult)> = seq![(*db, result)];
        let mut i: usize = 0;
        while i < moves.len()
            invariant
                i <= moves.len(),
                db.wf(),
                result.batch_id@ == batch_id@,
                result.duration_ms == duration_ms,
                result.files_archived + result.errors@.len() == i,
                states.len() == i + 1,
                states[0].0 == *old(db),
                states[0].1.files_archived == 0,
                states[0].1.total_bytes == 0,
                states[0].1.errors@.len() == 0,
                states[0].1.batch_id@ == batch_id@,
                states[0].1.duration_ms == duration_ms,
                states[i as int] == (*db, result),
                archive_chain(states, moves@, batch_id@, now, i as int),
            decreases moves.len() - i,
        {
            let m = &moves[i];
            let ghost before = (*db, result);
            match &m.outcome {
                Ok(moved) => {
                    match self.log_archive_action(
                        m.source.as_str(),
                        moved.0.as_str(),
                        batch_id,
                        db,
                        now,
                    ) {
                        Ok(_) => {
                            self.record_success(&mut result, moved.1);
                        },
                        Err(e) => {
                            self.record_failure(&mut result, m.source.as_str(), &e);
                            proof {
                                let v = record_verdict(&before.0, m.source@, moved.0@);
                                assert(e.detail() == record_refusal(v, m.source@));
                                assert(e.label() == "Archive Error: "@);
                            }
                        },
                    }
                },
                Err(e) => {
                    self.record_failure(&mut result, m.source.as_str(), e);
                },
            }
            proof {
                let prev = states;
                states = states.push((*db, result));
                assert(archive_step(before, (*db, result), moves@[i as int], batch_id@, now));
                assert forall|k: int| 0 <= k < i + 1 implies #[trigger] archive_step(
                    states[k],
                    states[k + 1],
                    moves@[k],
                    batch_id@,
                    now,
                ) by {
                    if k < i {
                        assert(archive_step(prev[k], prev[k + 1], moves@[k], batch_id@, now));
                    }
                }
            }
            i = i + 1;
        }
        result
    }
}

/// A copy of the error.
pub fn duplicate_error(e: &OpsError) -> (out: OpsError)
    ensures
        out == *e,
{
    match e {
        OpsError::ArchiveError(m) => OpsError::ArchiveError(m.clone()),
        OpsError::DeleteError(m) => OpsError::DeleteError(m.clone()),
        OpsError::UndoError(m) => OpsError::UndoError(m.clone()),
        OpsError::SpaceError(m) => OpsError::SpaceError(m.clone()),
        OpsError::PermissionError(m) => OpsError::PermissionError(m.clone()),
        OpsError::FileNotFound(m) => OpsError::FileNotFound(m.clone()),
        OpsError::InvalidPath(m) => OpsError::InvalidPath(m.clone()),
        OpsError::CrossVolumeError(m) => OpsError::CrossVolumeError(m.clone()),
        OpsError::BatchError(m) => OpsError::BatchError(m.clone()),
        OpsError::DatabaseError(m) => OpsError::DatabaseError(m.clone()),
        OpsError::GaugeError(m) => OpsError::GaugeError(m.clone()),
    }
}

} // verus!
