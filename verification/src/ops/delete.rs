//! Deleting: files are moved to the trash of the system or removed for
//! good, and each deletion is recorded.
//!
//! The moves and removals themselves are made by the caller.

use crate::db::database::{action_is, Database, StoreError};
use crate::models::{ActionType, Duplicate, NewAction};
use crate::ops::error::OpsError;
use crate::paths::{join, joined};
use crate::text::{decimal_string, decimal_text, join2};
use vstd::prelude::*;
use vstd::string::StringExecFns;

verus! {

/// How deleting is set up. Trash and removal for good exclude each other.
#[derive(Debug, Clone, Copy)]
pub struct DeleteConfig {
    pub use_trash: bool,
    pub permanent_delete: bool,
    pub archive_age_threshold_days: i64,
    pub confirm_permanent: bool,
}

impl Default for DeleteConfig {
    fn default() -> (out: Self)
        ensures
            out.use_trash,
            !out.permanent_delete,
            out.archive_age_threshold_days == 7,
            out.confirm_permanent,
    {
        DeleteConfig {
            use_trash: true,
            permanent_delete: false,
            archive_age_threshold_days: 7,
            confirm_permanent: true,
        }
    }
}

/// What a delete run did.
#[derive(Debug, Clone)]
pub struct DeleteResult {
    pub batch_id: String,
    pub files_deleted: usize,
    pub total_bytes_freed: u64,
    pub duration_ms: u64,
    pub errors: Vec<String>,
    pub trash_path: Option<String>,
}

/// A file that may be deleted.
#[derive(Debug, Clone)]
pub struct DeleteCandidate {
    pub file_id: i64,
    pub path: String,
    pub size_bytes: u64,
    pub age_days: i64,
    pub is_archive: bool,
    pub archive_age_days: Option<i64>,
}

impl crate::models::Duplicate for DeleteCandidate {
    fn duplicate(&self) -> (r: Self) {
        DeleteCandidate {
            file_id: self.file_id,
            path: self.path.clone(),
            size_bytes: self.size_bytes,
            age_days: self.age_days,
            is_archive: self.is_archive,
            archive_age_days: self.archive_age_days,
        }
    }
}

/// The systems whose trash is known.
#[derive(Debug, Clone, Copy, PartialEq, Eq, Structural)]
pub enum Platform {
    Windows,
    MacOs,
    Linux,
    Other,
}

/// The trash directory for a home directory: the Explorer state directory
/// under the user profile on Windows, `.Trash` on macOS,
/// `.local/share/Trash/files` on Linux and `.trash` elsewhere.
pub open spec fn trash_under(platform: Platform, home: Seq<char>) -> Seq<char> {
    match platform {
        Platform::Windows => joined(
            joined(
                joined(joined(joined(home, "AppData"@), "Local"@), "Microsoft"@),
                "Windows"@,
            ),
            "Explorer"@,
        ),
        Platform::MacOs => joined(home, ".Trash"@),
        Platform::Linux => joined(
            joined(joined(joined(home, ".local"@), "share"@), "Trash"@),
            "files"@,
        ),
        Platform::Other => joined(home, ".trash"@),
    }
}

/// The test for an archive that is old enough to be proposed for deletion:
/// its age as an archive, or its age where that is unknown, is at least
/// `threshold` days.
pub open spec fn old_archive(threshold: i64) -> spec_fn(DeleteCandidate) -> bool {
    |c: DeleteCandidate|
        c.is_archive && (if c.archive_age_days is Some {
            c.archive_age_days->0 >= threshold
        } else {
            c.age_days >= threshold
        })
}

/// Decides how files are deleted and records what was deleted.
#[derive(Debug, Clone, Copy)]
pub struct DeleteManager {
    pub config: DeleteConfig,
}

impl DeleteManager {
    pub fn new() -> (out: DeleteManager)
        ensures
            out.config.use_trash,
            !out.config.permanent_delete,
            out.config.archive_age_threshold_days == 7,
            out.config.confirm_permanent,
    {
        DeleteManager { config: DeleteConfig::default() }
    }

    /// Takes over `config`. Trash and removal for good exclude each other:
    /// where `config` asks for both, files are removed for good and the
    /// trash is off, as after `set_permanent_delete(true)`.
    pub fn update_config(&mut self, config: DeleteConfig)
        ensures
            final(self).config == (DeleteConfig {
                use_trash: config.use_trash && !config.permanent_delete,
                ..config
            }),
            !(final(self).config.use_trash && final(self).config.permanent_delete),
            !(config.use_trash && config.permanent_delete) ==> final(self).config == config,
    {
        self.config = config;
        if config.permanent_delete {
            self.config.use_trash = false;
        }
    }

    pub fn get_config(&self) -> (out: &DeleteConfig)
        ensures
            *out == self.config,
    {
        &self.config
    }

    /// Turns removal for good on or off; turning it on turns the trash
    /// off.
    pub fn set_permanent_delete(&mut self, permanent: bool)
        ensures
            final(self).config.permanent_delete == permanent,
            final(self).config.use_trash == (old(self).config.use_trash && !permanent),
            final(self).config.archive_age_threshold_days == old(
                self,
            ).config.archive_age_threshold_days,
            final(self).config.confirm_permanent == old(self).config.confirm_permanent,
    {
        self.config.permanent_delete = permanent;
        if permanent {
            self.config.use_trash = false;
        }
    }

    /// Turns the trash on or off; turning it on turns removal for good
    /// off.
    pub fn set_use_trash(&mut self, use_trash: bool)
        ensures
            final(self).config.use_trash == use_trash,
            final(self).config.permanent_delete == (old(self).config.permanent_delete
                && !use_trash),
            final(self).config.archive_age_threshold_days == old(
                self,
            ).config.archive_age_threshold_days,
            final(self).config.confirm_permanent == old(self).config.confirm_permanent,
    {
        self.config.use_trash = use_trash;
        if use_trash {
            self.config.permanent_delete = false;
        }
    }

    /// Whether files go to the trash: the trash is on and removal for
    /// good is off.
    pub fn goes_to_trash(&self) -> (r: bool)
        ensures
            r == (self.config.use_trash && !self.config.permanent_delete),
    {
        self.config.use_trash && !self.config.permanent_delete
    }

    /// The identifier of a batch started at `now`: `delete_` and the
    /// number of milliseconds; zero for an instant before the epoch.
    pub fn generate_batch_id(&self, now: i64) -> (out: String)
        ensures
            out@ == "delete_"@ + decimal_text(
                if now >= 0 {
                    now as nat
                } else {
                    0
                },
            ),
    {
        let ms: u64 = if now >= 0 {
            now as u64
        } else {
            0
        };
        join2("delete_", decimal_string(ms).as_str())
    }

    /// The trash directory of the system, given the home directory, or on
    /// Windows the user profile. Without it there is no trash, and the file
    /// fails.
    pub fn get_trash_directory(&self, platform: Platform, home: &Option<String>) -> (out: Result<
        String,
        OpsError,
    >)
        ensures
            match out {
                Ok(p) => home is Some && p@ == trash_under(platform, home->0@),
                Err(e) => home is None && e is DeleteError && e.detail() == (if platform
                    == Platform::Windows {
                    "Cannot determine user profile directory"@
                } else {
                    "Cannot determine home directory"@
                }),
            },
    {
        let h = match home {
            Some(h) => h,
            None => {
                return Err(
                    OpsError::DeleteError(
                        String::from_str(
                            if platform == Platform::Windows {
                                "Cannot determine user profile directory"
                            } else {
                                "Cannot determine home directory"
                            },
                        ),
                    ),
                );
            },
        };
        match platform {
            Platform::Windows => {
                let a = join(h.as_str(), "AppData");
                let b = join(a.as_str(), "Local");
                let c = join(b.as_str(), "Microsoft");
                let d = join(c.as_str(), "Windows");
                Ok(join(d.as_str(), "Explorer"))
            },
            Platform::MacOs => Ok(join(h.as_str(), ".Trash")),
            Platform::Linux => {
                let a = join(h.as_str(), ".local");
                let b = join(a.as_str(), "share");
                let c = join(b.as_str(), "Trash");
                Ok(join(c.as_str(), "files"))
            },
            Platform::Other => Ok(join(h.as_str(), ".trash")),
        }
    }

    /// An empty result for the batch `batch_id`.
    pub fn begin(&self, batch_id: String) -> (out: DeleteResult)
        ensures
            out.batch_id == batch_id,
            out.files_deleted == 0,
            out.total_bytes_freed == 0,
            out.duration_ms == 0,
            out.errors@.len() == 0,
            out.trash_path is None,
    {
        DeleteResult {
            batch_id,
            files_deleted: 0,
            total_bytes_freed: 0,
            duration_ms: 0,
            errors: Vec::new(),
            trash_path: None,
        }
    }

    /// Records that the file at `src_path` was deleted in the batch
    /// `batch_id` at `now`, and where it went: to `dst_path` in the trash,
    /// or nowhere, in which case `dst_path` is the source path. A delete
    /// action is appended; the file entry stays as it is. Fails, changing
    /// nothing, where no file entry has the source path, the path that the
    /// file went to is empty, or no action identifier is left.
    pub fn log_delete_action(
        &self,
        src_path: &str,
        dst_path: &str,
        batch_id: &str,
        db: &mut Database,
        now: i64,
    ) -> (out: Result<(), OpsError>)
        requires
            old(db).wf(),
        ensures
            final(db).wf(),
            final(db).same_files(old(db)),
            final(db).roots() == old(db).roots(),
            final(db).next_root_id() == old(db).next_root_id(),
            final(db).prefs() == old(db).prefs(),
            out is Ok <==> old(db).has_path(src_path@) && dst_path@.len() > 0 && old(
                db,
            ).next_action_id() < i64::MAX,
            out is Ok ==> {
                let i = old(db).index_of_path(src_path@);
                &&& final(db).actions().len() == old(db).actions().len() + 1
                &&& final(db).actions().drop_last() == old(db).actions()
                &&& action_is(
                    final(db).actions().last(),
                    old(db).next_action_id(),
                    old(db).files()[i].id->0,
                    ActionType::Delete,
                    batch_id@,
                    src_path@,
                    dst_path@,
                    "delete_manager"@,
                    now,
                )
                &&& final(db).next_action_id() == old(db).next_action_id() + 1
            },
            out matches Err(e) ==> {
                &&& final(db).actions() == old(db).actions()
                &&& final(db).next_action_id() == old(db).next_action_id()
                &&& e is DeleteError
                &&& e.detail() == (if !old(db).has_path(src_path@) {
                    "File not found in database: "@ + src_path@
                } else if dst_path@.len() == 0 {
                    "Failed to log action: check constraint failed"@
                } else {
                    "Failed to log action: no identifier left"@
                })
            },
    {
        let file_id = match db.get_file_id_by_path(src_path) {
            Some(id) => id,
            None => {
                return Err(OpsError::DeleteError(join2("File not found in database: ", src_path)));
            },
        };
        let action = NewAction {
            file_id,
            action: ActionType::Delete,
            batch_id: Some(String::from_str(batch_id)),
            src_path: Some(String::from_str(src_path)),
            dst_path: Some(String::from_str(dst_path)),
            origin: Some(String::from_str("delete_manager")),
            note: None,
        };
        match db.insert_action(&action, now) {
            Ok(_) => {
                assert(db.actions().drop_last() =~= old(db).actions());
                Ok(())
            },
            Err(StoreError::CheckViolation) => Err(
                OpsError::DeleteError(
                    String::from_str("Failed to log action: check constraint failed"),
                ),
            ),
            Err(_) => Err(
                OpsError::DeleteError(String::from_str("Failed to log action: no identifier left")),
            ),
        }
    }

    /// Adds a file that was deleted, `bytes` large, to the result; the
    /// trash directory is noted the first time one is given.
    pub fn record_success(&self, result: &mut DeleteResult, bytes: u64, trash: Option<String>)
        requires
            old(result).files_deleted < usize::MAX,
        ensures
            final(result).files_deleted == old(result).files_deleted + 1,
            final(result).total_bytes_freed == (if old(result).total_bytes_freed + bytes
                > u64::MAX {
                u64::MAX
            } else {
                (old(result).total_bytes_freed + bytes) as u64
            }),
            final(result).trash_path == (if old(result).trash_path is None {
                trash
            } else {
                old(result).trash_path
            }),
            final(result).errors == old(result).errors,
            final(result).batch_id == old(result).batch_id,
            final(result).duration_ms == old(result).duration_ms,
    {
        result.files_deleted = result.files_deleted + 1;
        result.total_bytes_freed = result.total_bytes_freed.saturating_add(bytes);
        if result.trash_path.is_none() {
            result.trash_path = trash;
        }
    }

    /// Adds a file that could not be deleted, and why, to the result.
    pub fn record_failure(&self, result: &mut DeleteResult, file_path: &str, error: &OpsError)
        ensures
            final(result).errors@.len() == old(result).errors@.len() + 1,
            final(result).errors@.drop_last() == old(result).errors@,
            final(result).errors@.last()@ == "Failed to delete "@ + file_path@ + ": "@
                + error.label() + error.detail(),
            final(result).files_deleted == old(result).files_deleted,
            final(result).total_bytes_freed == old(result).total_bytes_freed,
            final(result).trash_path == old(result).trash_path,
            final(result).batch_id == old(result).batch_id,
            final(result).duration_ms == old(result).duration_ms,
    {
        let a = join2("Failed to delete ", file_path);
        let b = join2(a.as_str(), ": ");
        let line = join2(b.as_str(), error.to_string().as_str());
        let ghost before = result.errors@;
        result.errors.push(line);
        assert(result.errors@.drop_last() =~= before);
    }

    /// The files proposed for deletion; none are proposed on their own.
    pub fn get_delete_candidates(&self, db: &Database) -> (out: Vec<DeleteCandidate>)
        ensures
            out@.len() == 0,
    {
        Vec::new()
    }

    /// The archives among `candidates` that are old enough, in their
    /// order.
    pub fn filter_archive_candidates(&self, candidates: Vec<DeleteCandidate>) -> (out: Vec<
        DeleteCandidate,
    >)
        ensures
            out@ == candidates@.filter(old_archive(self.config.archive_age_threshold_days)),
    {
        let threshold = self.config.archive_age_threshold_days;
        let mut mask: Vec<bool> = Vec::new();
        let mut i: usize = 0;
        while i < candidates.len()
            invariant
                i <= candidates.len(),
                mask@.len() == i,
                forall|j: int|
                    0 <= j < i ==> mask@[j] == old_archive(threshold)(#[trigger] candidates@[j]),
            decreases candidates.len() - i,
        {
            let c = &candidates[i];
            let keep = c.is_archive && match c.archive_age_days {
                Some(age) => age >= threshold,
                None => c.age_days >= threshold,
            };
            mask.push(keep);
            i = i + 1;
        }
        let out = crate::seqs::pick_by_mask(&candidates, &mask);
        proof {
            crate::seqs::lemma_masked_is_filter(candidates@, mask@, old_archive(threshold));
        }
        out
    }
}

/// Where a deleted file went.
#[derive(Debug)]
pub struct Removal {
    /// The path in the trash, or, where the file was removed for good, the
    /// path that it had.
    pub deleted_path: String,
    /// How many bytes the file held.
    pub bytes: u64,
    /// The trash directory, where the file went there.
    pub trash: Option<String>,
}

/// What became of the deletion of one file of a run.
#[derive(Debug)]
pub struct DeleteAttempt {
    /// The path of the file before the run.
    pub source: String,
    /// Where the file went, or why it is still there.
    pub outcome: Result<Removal, OpsError>,
}

/// The result `post` is `pre` with one more deleted file; the sum is
/// capped, and the first trash directory that is given is kept.
pub open spec fn one_more_deleted(pre: DeleteResult, post: DeleteResult, removal: Removal) -> bool {
    &&& post.files_deleted == pre.files_deleted + 1
    &&& post.total_bytes_freed == (if pre.total_bytes_freed + removal.bytes > u64::MAX {
        u64::MAX
    } else {
        (pre.total_bytes_freed + removal.bytes) as u64
    })
    &&& post.trash_path == (if pre.trash_path is None {
        removal.trash
    } else {
        pre.trash_path
    })
    &&& post.errors == pre.errors
    &&& post.batch_id == pre.batch_id
    &&& post.duration_ms == pre.duration_ms
}

/// The result `post` is `pre` with one more line that says that the file
/// at `src` was not deleted, with the kind of the error in words and its
/// detail.
pub open spec fn one_more_undeleted(
    pre: DeleteResult,
    post: DeleteResult,
    src: Seq<char>,
    kind: Seq<char>,
    detail: Seq<char>,
) -> bool {
    &&& post.errors@.len() == pre.errors@.len() + 1
    &&& post.errors@.drop_last() == pre.errors@
    &&& post.errors@.last()@ == "Failed to delete "@ + src + ": "@ + kind + detail
    &&& post.files_deleted == pre.files_deleted
    &&& post.total_bytes_freed == pre.total_bytes_freed
    &&& post.trash_path == pre.trash_path
    &&& post.batch_id == pre.batch_id
    &&& post.duration_ms == pre.duration_ms
}

/// The catalog `post` is `pre` with one more action: the deletion of the
/// file at `src`, which went to `dst`, in the batch `batch` at `now`.
pub open spec fn delete_logged(
    pre: &Database,
    post: &Database,
    src: Seq<char>,
    dst: Seq<char>,
    batch: Seq<char>,
    now: i64,
) -> bool {
    &&& pre.has_path(src)
    &&& post.same_files(pre)
    &&& post.roots() == pre.roots()
    &&& post.next_root_id() == pre.next_root_id()
    &&& post.prefs() == pre.prefs()
    &&& post.actions().len() == pre.actions().len() + 1
    &&& post.actions().drop_last() == pre.actions()
    &&& action_is(
        post.actions().last(),
        pre.next_action_id(),
        pre.files()[pre.index_of_path(src)].id->0,
        ActionType::Delete,
        batch,
        src,
        dst,
        "delete_manager"@,
        now,
    )
    &&& post.next_action_id() == pre.next_action_id() + 1
}

/// One step of a run: a file that was deleted and whose deletion can be
/// recorded is recorded and counted; for any other the catalog stays as
/// it is and a line says why.
pub open spec fn delete_step(
    pre: (Database, DeleteResult),
    post: (Database, DeleteResult),
    d: DeleteAttempt,
    batch: Seq<char>,
    now: i64,
) -> bool {
    match d.outcome {
        Ok(removal) => {
            if pre.0.has_path(d.source@) && removal.deleted_path@.len() > 0
                && pre.0.next_action_id() < i64::MAX {
                &&& delete_logged(&pre.0, &post.0, d.source@, removal.deleted_path@, batch, now)
                &&& one_more_deleted(pre.1, post.1, removal)
            } else {
                &&& post.0.same_files(&pre.0)
                &&& post.0.same_log_and_settings(&pre.0)
                &&& one_more_undeleted(
                    pre.1,
                    post.1,
                    d.source@,
                    "Delete Error: "@,
                    if !pre.0.has_path(d.source@) {
                        "File not found in database: "@ + d.source@
                    } else if removal.deleted_path@.len() == 0 {
                        "Failed to log action: check constraint failed"@
                    } else {
                        "Failed to log action: no identifier left"@
                    },
                )
            }
        },
        Err(e) => {
            &&& post.0.same_files(&pre.0)
            &&& post.0.same_log_and_settings(&pre.0)
            &&& one_more_undeleted(pre.1, post.1, d.source@, e.label(), e.detail())
        },
    }
}

/// The states follow one from the other by the first `n` steps of a run.
pub open spec fn delete_chain(
    states: Seq<(Database, DeleteResult)>,
    attempts: Seq<DeleteAttempt>,
    batch: Seq<char>,
    now: i64,
    n: int,
) -> bool {
    forall|k: int|
        0 <= k < n ==> #[trigger] delete_step(states[k], states[k + 1], attempts[k], batch, now)
}

/// The catalog `post` and the result `out` follow from the catalog `pre`
/// and an empty result for the batch by taking the files of `attempts`
/// in turn.
pub open spec fn deleted_in_turn(
    pre: &Database,
    post: &Database,
    out: DeleteResult,
    attempts: Seq<DeleteAttempt>,
    batch: Seq<char>,
    now: i64,
) -> bool {
    exists|states: Seq<(Database, DeleteResult)>|
        {
            &&& states.len() == attempts.len() + 1
            &&& states[0].0 == *pre
            &&& states[0].1.files_deleted == 0
            &&& states[0].1.total_bytes_freed == 0
            &&& states[0].1.errors@.len() == 0
            &&& states[0].1.trash_path is None
            &&& states[0].1.batch_id@ == batch
            &&& states[0].1.duration_ms == out.duration_ms
            &&& states[attempts.len() as int] == (*post, out)
            &&& #[trigger] delete_chain(states, attempts, batch, now, attempts.len() as int)
        }
}

impl DeleteManager {
    /// Notes what a delete run did. The files were taken in the order of
    /// `attempts`: each that was deleted is recorded in the batch
    /// `batch_id` at `now` and counted with its size; each that is still
    /// there, or whose deletion cannot be recorded, gets a line in the
    /// errors, and the run goes on with the next file.
    pub fn delete_files(
        &self,
        attempts: &Vec<DeleteAttempt>,
        batch_id: &str,
        db: &mut Database,
        now: i64,
        duration_ms: u64,
    ) -> (out: DeleteResult)
        requires
            old(db).wf(),
        ensures
            final(db).wf(),
            final(db).same_files(old(db)),
            out.batch_id@ == batch_id@,
            out.duration_ms == duration_ms,
            out.files_deleted + out.errors@.len() == attempts@.len(),
            deleted_in_turn(old(db), final(db), out, attempts@, batch_id@, now),
    {
        let mut result = self.begin(String::from_str(batch_id));
        result.duration_ms = duration_ms;
        let ghost mut states: Seq<(Database, DeleteResult)> = seq![(*db, result)];
        let mut i: usize = 0;
        while i < attempts.len()
            invariant
                i <= attempts.len(),
                db.wf(),
                db.same_files(old(db)),
                result.batch_id@ == batch_id@,
                result.duration_ms == duration_ms,
                result.files_deleted + result.errors@.len() == i,
                states.len() == i + 1,
                states[0].0 == *old(db),
                states[0].1.files_deleted == 0,
                states[0].1.total_bytes_freed == 0,
                states[0].1.errors@.len() == 0,
                states[0].1.trash_path is None,
                states[0].1.batch_id@ == batch_id@,
                states[0].1.duration_ms == duration_ms,
                states[i as int] == (*db, result),
                delete_chain(states, attempts@, batch_id@, now, i as int),
            decreases attempts.len() - i,
        {
            let d = &attempts[i];
            let ghost before = (*db, result);
            match &d.outcome {
                Ok(removal) => {
                    match self.log_delete_action(
                        d.source.as_str(),
                        removal.deleted_path.as_str(),
                        batch_id,
                        db,
                        now,
                    ) {
                        Ok(_) => {
                            self.record_success(&mut result, removal.bytes, removal.trash.duplicate());
                        },
                        Err(e) => {
                            self.record_failure(&mut result, d.source.as_str(), &e);
                            assert(e.label() == "Delete Error: "@);
                        },
                    }
                },
                Err(e) => {
                    self.record_failure(&mut result, d.source.as_str(), e);
                },
            }
            proof {
                let prev = states;
                states = states.push((*db, result));
                assert(delete_step(before, (*db, result), attempts@[i as int], batch_id@, now));
                assert forall|k: int| 0 <= k < i + 1 implies #[trigger] delete_step(
                    states[k],
                    states[k + 1],
                    attempts@[k],
                    batch_id@,
                    now,
                ) by {
                    if k < i {
                        assert(delete_step(prev[k], prev[k + 1], attempts@[k], batch_id@, now));
                    }
                }
            }
            i = i + 1;
        }
        result
    }
}

} // verus!
