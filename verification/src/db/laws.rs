//! Laws of the catalog, stated over what its operations promise.

use crate::db::database::{
    is_missing, reconciled, reconciled_slots, Database, StoreError,
};
use crate::models::{ActionType, File, NewFile, StagedFileRecord};
use crate::paths::is_under_root;
use vstd::prelude::*;

verus! {

/// Two live file entries never have the same path.
pub proof fn law_live_paths_differ(db: &Database, i: int, j: int)
    requires
        db.wf(),
        0 <= i < db.files().len(),
        0 <= j < db.files().len(),
        i != j,
        !db.files()[i].is_deleted,
        !db.files()[j].is_deleted,
    ensures
        db.files()[i].path@ != db.files()[j].path@,
{
    if i < j {
        assert(db.files()[i].path@ != db.files()[j].path@);
    } else {
        assert(db.files()[j].path@ != db.files()[i].path@);
    }
}

/// Every recorded action belongs to a batch; an archive or a delete says
/// where the file went, and a restore says where the file came from.
pub proof fn law_actions_are_complete(db: &Database, i: int)
    requires
        db.wf(),
        0 <= i < db.actions().len(),
    ensures
        db.actions()[i].batch_id is Some,
        db.actions()[i].action != ActionType::Restore ==> db.actions()[i].dst_path is Some
            && db.actions()[i].dst_path->0@.len() > 0,
        db.actions()[i].action == ActionType::Restore ==> db.actions()[i].src_path is Some
            && db.actions()[i].src_path->0@.len() > 0,
{
    assert(crate::db::database::action_complete(db.actions()[i]));
}

/// Recording the same observation of a file a second time changes nothing
/// but the time at which the entry was last seen: the entry keeps its
/// identifier and every other field, no entry is added, and the rest of the
/// catalog stays as it is.
pub proof fn law_upsert_twice(
    db0: &Database,
    db1: &Database,
    db2: &Database,
    file: NewFile,
    now1: i64,
    now2: i64,
    out1: Result<i64, StoreError>,
    out2: Result<i64, StoreError>,
)
    requires
        db0.wf(),
        db1.wf(),
        Database::upsert_post(db0, db1, file, now1, out1),
        Database::upsert_post(db1, db2, file, now2, out2),
        out1 is Ok,
    ensures
        out2 == out1,
        db1.has_path(file.path@),
        db2.files() == db1.files().update(
            db1.index_of_path(file.path@),
            File {
                last_seen_at: if now2 > db1.files()[db1.index_of_path(file.path@)].last_seen_at {
                    now2
                } else {
                    db1.files()[db1.index_of_path(file.path@)].last_seen_at
                },
                ..db1.files()[db1.index_of_path(file.path@)]
            },
        ),
        db2.slots() == db1.slots(),
        db2.next_file_id() == db1.next_file_id(),
        db2.next_staged_id() == db1.next_staged_id(),
        db2.same_log_and_settings(db1),
{
    if db0.has_path(file.path@) {
        let i = db0.index_of_path(file.path@);
        assert(db1.files()[i].path@ == file.path@);
    } else {
        let n = db0.files().len() as int;
        assert(db1.files()[n].path@ == file.path@);
    }
    assert(db1.has_path(file.path@));
    let k = db1.index_of_path(file.path@);
    assert(0 <= k < db1.files().len() && db1.files()[k].path@ == file.path@);
    if db0.has_path(file.path@) {
        let i = db0.index_of_path(file.path@);
        if i < k {
            assert(db1.files()[i].path@ != db1.files()[k].path@);
        } else if k < i {
            assert(db1.files()[k].path@ != db1.files()[i].path@);
        }
    } else {
        let n = db0.files().len() as int;
        if k < n {
            assert(db1.files()[k].path@ != db1.files()[n].path@);
        }
    }
}

/// After a reconciling scan of a root, an entry under that root is marked
/// as gone exactly where its path was not seen, provided that every entry
/// whose path was seen was live before, as it is when the scan recorded each
/// path that it saw.
pub proof fn law_tombstone_completeness(
    files: Seq<File>,
    root: Seq<char>,
    seen: Seq<Seq<char>>,
    i: int,
)
    requires
        0 <= i < files.len(),
        is_under_root(files[i].path@, root),
        seen.contains(files[i].path@) ==> !files[i].is_deleted,
    ensures
        reconciled(files, root, seen)[i].is_deleted == !seen.contains(files[i].path@),
        reconciled(files, root, seen)[i].path == files[i].path,
{
}

/// A reconciling scan leaves no entry that it marks as gone staged, and
/// removes its staged record.
pub proof fn law_reconcile_unstages(
    files: Seq<File>,
    slots: Seq<Option<StagedFileRecord>>,
    root: Seq<char>,
    seen: Seq<Seq<char>>,
    i: int,
)
    requires
        0 <= i < files.len(),
        files.len() == slots.len(),
        is_missing(files[i], root, seen),
    ensures
        reconciled(files, root, seen)[i].is_deleted,
        !reconciled(files, root, seen)[i].is_staged,
        reconciled(files, root, seen)[i].cooloff_until is None,
        reconciled_slots(files, slots, root, seen)[i] is None,
{
}

} // verus!
