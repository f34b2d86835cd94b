//! Laws of the operations engine: what archiving, deleting and undoing do
//! to the files on disk and to the catalog, taken together.

use crate::db::database::{
    action_is, created_asc_keys, in_batch, relocated, text_or_empty, Database,
};
use crate::models::{Action, ActionType};
use crate::ops::archive::archive_logged;
use crate::ops::delete::delete_logged;
use crate::ops::undo::{
    after_move, after_moves, can_move, moves_apply, planned_steps, restore_log_verdict,
    restore_logged, reverse_verdict, reversed, Disk, Step,
};
use crate::order::{arranged, lemma_stable_order_exists, the_stable_order};
use vstd::prelude::*;

verus! {

/// Making moves one after the other is making the first ones and then the
/// rest.
pub proof fn lemma_after_moves_concat(disk: Disk, a: Seq<Step>, b: Seq<Step>)
    ensures
        after_moves(disk, a + b) == after_moves(after_moves(disk, a), b),
        moves_apply(disk, a + b) == (moves_apply(disk, a) && moves_apply(after_moves(disk, a), b)),
    decreases b.len(),
{
    if b.len() == 0 {
        assert(a + b == a);
    } else {
        lemma_after_moves_concat(disk, a, b.drop_last());
        assert((a + b).drop_last() == a + b.drop_last());
        assert((a + b).last() == b.last());
    }
}

/// Taking back a move that was made leaves the disk as it was.
pub proof fn lemma_move_and_back(disk: Disk, step: Step)
    requires
        can_move(disk, step),
    ensures
        can_move(after_move(disk, step), (step.1, step.0)),
        after_move(after_move(disk, step), (step.1, step.0)) == disk,
{
    let there = after_move(disk, step);
    let back = after_move(there, (step.1, step.0));
    assert(back =~= disk);
}

/// When the moves of an undo are taken back, every file is where it was
/// before the undo began: the moves back can all be made, and they leave
/// the disk as it was.
pub proof fn law_rollback_restores_disk(disk: Disk, steps: Seq<Step>)
    requires
        moves_apply(disk, steps),
    ensures
        moves_apply(after_moves(disk, steps), reversed(steps)),
        after_moves(after_moves(disk, steps), reversed(steps)) == disk,
    decreases steps.len(),
{
    if steps.len() == 0 {
        assert(reversed(steps) =~= Seq::<Step>::empty());
    } else {
        let first = steps.drop_last();
        let last = steps.last();
        let mid = after_moves(disk, first);
        let end = after_moves(disk, steps);
        law_rollback_restores_disk(disk, first);
        lemma_move_and_back(mid, last);
        let back_last = seq![(last.1, last.0)];
        assert(reversed(steps) =~= back_last + reversed(first));
        lemma_after_moves_concat(end, back_last, reversed(first));
        assert(back_last.drop_last() =~= Seq::<Step>::empty());
        assert(back_last.last() == (last.1, last.0));
        assert(after_moves(end, back_last.drop_last()) == end);
        assert(moves_apply(end, back_last.drop_last()));
        assert(after_moves(end, back_last) == after_move(end, (last.1, last.0)));
        assert(moves_apply(end, back_last));
    }
}

/// Archive a file, then restore it: the file is at the path that it had
/// again and no longer at the archive path, on disk and in the catalog, and
/// the archive action and the restore action are of one batch.
pub proof fn law_archive_round_trip(
    disk: Disk,
    db0: &Database,
    db1: &Database,
    db2: &Database,
    src: Seq<char>,
    dst: Seq<char>,
    batch: Seq<char>,
    t1: i64,
    t2: i64,
)
    requires
        db0.wf(),
        can_move(disk, (src, dst)),
        archive_logged(db0, db1, src, dst, batch, t1),
        restore_logged(db1, db2, db1.actions().last(), t2),
    ensures
        ({
            let there = after_move(disk, (src, dst));
            let back = after_move(there, (dst, src));
            let i = db0.index_of_path(src);
            &&& can_move(there, (dst, src))
            &&& back == disk
            &&& back.contains(src)
            &&& !back.contains(dst)
            &&& db1.index_of_id(db1.actions().last().file_id) == i
            &&& db2.files()[i].path@ == src
            &&& db2.files()[i].id == db0.files()[i].id
            &&& db2.actions().last().action == ActionType::Restore
            &&& db1.actions().last().action == ActionType::Archive
            &&& db2.actions().last().batch_id->0@ == db1.actions().last().batch_id->0@
            &&& db2.actions().last().file_id == db1.actions().last().file_id
        }),
{
    lemma_move_and_back(disk, (src, dst));
    let i = db0.index_of_path(src);
    assert(0 <= i < db0.files().len() && db0.files()[i].path@ == src);
    let a = db1.actions().last();
    assert(db1.files()[i].id == Some(a.file_id));
    assert(db1.has_id(a.file_id));
    let k = db1.index_of_id(a.file_id);
    assert(0 <= k < db1.files().len() && db1.files()[k].id == Some(a.file_id));
    assert(db1.files()[i].id == db0.files()[i].id);
    if k != i {
        assert(db1.files()[k] == db0.files()[k]);
        if k < i {
            assert(db0.files()[k].id->0 < db0.files()[i].id->0);
        } else {
            assert(db0.files()[i].id->0 < db0.files()[k].id->0);
        }
    }
}

/// A batch of one action, arranged by time, is that action.
proof fn lemma_batch_of_one(actions: Seq<Action>, a: Action, batch: Seq<char>)
    requires
        actions.len() > 0,
        actions.last() == a,
        text_or_empty(a.batch_id) == batch,
        actions.drop_last().filter(in_batch(batch)).len() == 0,
    ensures
        actions.filter(in_batch(batch)) == seq![a],
        arranged(
            actions.filter(in_batch(batch)),
            created_asc_keys(actions.filter(in_batch(batch))),
        ) == seq![a],
{
    let before = actions.drop_last();
    assert(actions == before.push(a));
    before.lemma_filter_push(a, in_batch(batch));
    let members = actions.filter(in_batch(batch));
    assert(members =~= seq![a]);
    let keys = created_asc_keys(members);
    lemma_stable_order_exists(keys);
    let order = the_stable_order(keys);
    assert(order[0] < 1);
    assert(arranged(members, keys) =~= seq![a]);
}

/// Archive a file in a new batch, then undo the batch, with an action
/// identifier left for the record of the restore: the batch holds the one
/// archive action; the plan of the undo is the one move back, which can be
/// made and leaves the disk as it was before the archive; the record of
/// the restore is owed success; and once it is made, the file entry has
/// the path that it had, and the restore is of the batch of the archive.
pub proof fn law_archive_then_undo(
    disk: Disk,
    db0: &Database,
    db1: &Database,
    db2: &Database,
    src: Seq<char>,
    dst: Seq<char>,
    batch: Seq<char>,
    t1: i64,
    t2: i64,
)
    requires
        db0.wf(),
        db1.wf(),
        can_move(disk, (src, dst)),
        db0.actions().filter(in_batch(batch)).len() == 0,
        archive_logged(db0, db1, src, dst, batch, t1),
        db1.next_action_id() < i64::MAX,
        restore_log_verdict(db1, db1.actions().last()) == 0 ==> restore_logged(
            db1,
            db2,
            db1.actions().last(),
            t2,
        ),
    ensures
        ({
            let a = db1.actions().last();
            let there = after_move(disk, (src, dst));
            let members = db1.actions().filter(in_batch(batch));
            let i = db0.index_of_path(src);
            &&& arranged(members, created_asc_keys(members)) == seq![a]
            &&& planned_steps(there, seq![a]) == seq![(dst, src)]
            &&& moves_apply(there, seq![(dst, src)])
            &&& after_moves(there, seq![(dst, src)]) == disk
            &&& disk.contains(src) && !disk.contains(dst)
            &&& restore_log_verdict(db1, a) == 0
            &&& restore_logged(db1, db2, a, t2)
            &&& db2.files()[i].path@ == src
            &&& db2.files()[i].parent_dir@ == crate::paths::parent_dir(src)
            &&& db2.files()[i].id == db0.files()[i].id
            &&& !db2.has_path(dst)
            &&& db2.actions().last().action == ActionType::Restore
            &&& db2.actions().last().src_path->0@ == dst
            &&& db2.actions().last().dst_path->0@ == src
            &&& db2.actions().last().batch_id->0@ == batch
            &&& a.batch_id->0@ == batch
        }),
{
    let a = db1.actions().last();
    let there = after_move(disk, (src, dst));
    let step = (dst, src);
    let i = db0.index_of_path(src);
    assert(0 <= i < db0.files().len() && db0.files()[i].path@ == src);
    assert(db1.actions().drop_last() == db0.actions());
    lemma_batch_of_one(db1.actions(), a, batch);
    lemma_move_and_back(disk, (src, dst));
    // The plan: one action, which can be reversed.
    let one = seq![a];
    assert(one.drop_last() =~= Seq::<Action>::empty());
    assert(one.last() == a);
    assert(planned_steps(there, one.drop_last()) =~= Seq::<Step>::empty());
    assert(after_moves(there, Seq::<Step>::empty()) == there);
    assert(reverse_verdict(there, a) == 0);
    assert(planned_steps(there, one) =~= seq![step]);
    let steps = seq![step];
    assert(steps.drop_last() =~= Seq::<Step>::empty());
    assert(steps.last() == step);
    assert(moves_apply(there, steps.drop_last()));
    assert(after_moves(there, steps.drop_last()) == there);
    assert(moves_apply(there, steps));
    assert(after_moves(there, steps) == disk);
    // The record: no file entry has the old path, and the action is complete.
    assert(crate::db::database::action_complete(a));
    assert(!db1.has_path(src)) by {
        if db1.has_path(src) {
            let k = db1.index_of_path(src);
            assert(0 <= k < db1.files().len() && db1.files()[k].path@ == src);
            if k == i {
                assert(db1.files()[i].path@ == dst);
            } else {
                assert(db1.files()[k] == db0.files()[k]);
                if k < i {
                    assert(db0.files()[k].path@ != db0.files()[i].path@);
                } else {
                    assert(db0.files()[i].path@ != db0.files()[k].path@);
                }
            }
        }
    }
    assert(restore_log_verdict(db1, a) == 0);
    law_archive_round_trip(disk, db0, db1, db2, src, dst, batch, t1, t2);
    assert(!db2.has_path(dst)) by {
        if db2.has_path(dst) {
            let k = db2.index_of_path(dst);
            assert(0 <= k < db2.files().len() && db2.files()[k].path@ == dst);
            let w = db1.index_of_id(a.file_id);
            assert(w == i);
            if k != i {
                assert(db2.files()[k] == db1.files()[k]);
                assert(db1.files()[i].path@ == dst);
                if k < i {
                    assert(db1.files()[k].path@ != db1.files()[i].path@);
                } else {
                    assert(db1.files()[i].path@ != db1.files()[k].path@);
                }
            }
        }
    }
}

/// Delete a file to the trash, then restore it: the file is at the path
/// that it had again and no longer in the trash, on disk and in the
/// catalog, and the delete action and the restore action are of one batch.
pub proof fn law_delete_round_trip(
    disk: Disk,
    db1: &Database,
    db2: &Database,
    deleted: Action,
    src: Seq<char>,
    trash: Seq<char>,
    t2: i64,
)
    requires
        db1.wf(),
        can_move(disk, (src, trash)),
        deleted.action == ActionType::Delete,
        deleted.src_path is Some && deleted.src_path->0@ == src,
        deleted.dst_path is Some && deleted.dst_path->0@ == trash,
        db1.has_id(deleted.file_id),
        restore_logged(db1, db2, deleted, t2),
    ensures
        ({
            let there = after_move(disk, (src, trash));
            let back = after_move(there, (trash, src));
            let i = db1.index_of_id(deleted.file_id);
            &&& can_move(there, (trash, src))
            &&& back == disk
            &&& back.contains(src)
            &&& !back.contains(trash)
            &&& db2.files()[i].path@ == src
            &&& db2.files()[i].id == Some(deleted.file_id)
            &&& db2.actions().last().action == ActionType::Restore
            &&& db2.actions().last().batch_id->0@ == crate::db::database::text_or_empty(
                deleted.batch_id,
            )
            &&& db2.actions().last().file_id == deleted.file_id
        }),
{
    lemma_move_and_back(disk, (src, trash));
    let i = db1.index_of_id(deleted.file_id);
    assert(0 <= i < db1.files().len() && db1.files()[i].id == Some(deleted.file_id));
}

/// Delete a file to the trash in a new batch, then undo the batch, with an
/// action identifier left for the record of the restore: the batch holds
/// the one delete action; the plan of the undo is the one move back out of
/// the trash, which can be made and leaves the disk as it was before the
/// delete; the record of the restore is owed success; and once it is made,
/// the file entry has the path that it had, and the restore is of the
/// batch of the delete.
pub proof fn law_delete_then_undo(
    disk: Disk,
    db0: &Database,
    db1: &Database,
    db2: &Database,
    src: Seq<char>,
    trash: Seq<char>,
    batch: Seq<char>,
    t1: i64,
    t2: i64,
)
    requires
        db0.wf(),
        db1.wf(),
        can_move(disk, (src, trash)),
        db0.actions().filter(in_batch(batch)).len() == 0,
        delete_logged(db0, db1, src, trash, batch, t1),
        db1.next_action_id() < i64::MAX,
        restore_log_verdict(db1, db1.actions().last()) == 0 ==> restore_logged(
            db1,
            db2,
            db1.actions().last(),
            t2,
        ),
    ensures
        ({
            let a = db1.actions().last();
            let there = after_move(disk, (src, trash));
            let members = db1.actions().filter(in_batch(batch));
            let i = db0.index_of_path(src);
            &&& arranged(members, created_asc_keys(members)) == seq![a]
            &&& planned_steps(there, seq![a]) == seq![(trash, src)]
            &&& moves_apply(there, seq![(trash, src)])
            &&& after_moves(there, seq![(trash, src)]) == disk
            &&& disk.contains(src) && !disk.contains(trash)
            &&& restore_log_verdict(db1, a) == 0
            &&& restore_logged(db1, db2, a, t2)
            &&& db2.files()[i].path@ == src
            &&& db2.files()[i].id == db0.files()[i].id
            &&& db2.actions().last().action == ActionType::Restore
            &&& db2.actions().last().src_path->0@ == trash
            &&& db2.actions().last().dst_path->0@ == src
            &&& db2.actions().last().batch_id->0@ == batch
            &&& a.batch_id->0@ == batch
        }),
{
    let a = db1.actions().last();
    let there = after_move(disk, (src, trash));
    let step = (trash, src);
    let i = db0.index_of_path(src);
    assert(0 <= i < db0.files().len() && db0.files()[i].path@ == src);
    assert(db1.actions().drop_last() == db0.actions());
    lemma_batch_of_one(db1.actions(), a, batch);
    lemma_move_and_back(disk, (src, trash));
    let one = seq![a];
    assert(one.drop_last() =~= Seq::<Action>::empty());
    assert(one.last() == a);
    assert(planned_steps(there, one.drop_last()) =~= Seq::<Step>::empty());
    assert(after_moves(there, Seq::<Step>::empty()) == there);
    assert(reverse_verdict(there, a) == 0);
    assert(planned_steps(there, one) =~= seq![step]);
    let steps = seq![step];
    assert(steps.drop_last() =~= Seq::<Step>::empty());
    assert(steps.last() == step);
    assert(moves_apply(there, steps.drop_last()));
    assert(after_moves(there, steps.drop_last()) == there);
    assert(moves_apply(there, steps));
    assert(after_moves(there, steps) == disk);
    assert(crate::db::database::action_complete(a));
    assert(db1.files() == db0.files());
    assert(db1.files()[i].id == Some(a.file_id));
    assert(db1.has_id(a.file_id));
    let w = db1.index_of_id(a.file_id);
    assert(0 <= w < db1.files().len() && db1.files()[w].id == Some(a.file_id));
    if w < i {
        assert(db1.files()[w].id->0 < db1.files()[i].id->0);
    } else if i < w {
        assert(db1.files()[i].id->0 < db1.files()[w].id->0);
    }
    assert(w == i);
    assert(db1.has_path(src));
    let k = db1.index_of_path(src);
    assert(0 <= k < db1.files().len() && db1.files()[k].path@ == src);
    if k < i {
        assert(db1.files()[k].path@ != db1.files()[i].path@);
    } else if i < k {
        assert(db1.files()[i].path@ != db1.files()[k].path@);
    }
    assert(k == i);
    assert(restore_log_verdict(db1, a) == 0);
}

} // verus!
