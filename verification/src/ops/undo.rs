//! Undoing a batch: every file that the batch archived or deleted goes
//! back to where it came from, or none does.
//!
//! The moves are planned here against what the caller found on disk and
//! are made by the caller. Only once all of them are made are they recorded.

use crate::db::database::{
    action_is, created_asc_keys, in_batch, is_undoable, latest_index, relocated, text_or_empty,
    undoable_batches, Database,
};
use crate::db::database::string_views;
use crate::models::{duplicate_all, Action, ActionType, Duplicate, NewAction};
use crate::ops::error::OpsError;
use crate::order::arranged;
use crate::text::{decimal_string, decimal_text, join2};
use vstd::prelude::*;
use vstd::string::StringExecFns;

verus! {

/// What an undo did.
#[derive(Debug, Clone)]
pub struct UndoResult {
    pub batch_id: String,
    pub actions_reversed: usize,
    pub files_restored: usize,
    pub duration_ms: u64,
    pub errors: Vec<String>,
    pub rollback_performed: bool,
}

/// A batch with its actions, earliest first.
#[derive(Debug, Clone)]
pub struct BatchInfo {
    pub batch_id: String,
    /// The kind of the first action.
    pub action_type: ActionType,
    pub file_count: usize,
    /// The time of the first action.
    pub created_at: i64,
    pub actions: Vec<Action>,
}

/// One move of a file.
#[derive(Debug, Clone)]
pub struct MoveOp {
    pub from: String,
    pub to: String,
}

/// The moves that undo a batch, in order, as far as they can be made; and
/// for the first action that cannot be reversed, why not.
#[derive(Debug, Clone)]
pub struct UndoPlan {
    pub moves: Vec<MoveOp>,
    pub failure: Option<String>,
}

/// The files that are there, as the set of their paths.
pub type Disk = Set<Seq<char>>;

/// A move as a pair: from where, to where.
pub type Step = (Seq<char>, Seq<char>);

/// The paths of a list of strings, as a set.
pub open spec fn disk_of(present: Seq<String>) -> Disk {
    Set::new(|p: Seq<char>| exists|i: int| 0 <= i < present.len() && (#[trigger] present[i])@ == p)
}

/// The move can be made: the file is there and its destination is free.
pub open spec fn can_move(disk: Disk, step: Step) -> bool {
    disk.contains(step.0) && !disk.contains(step.1)
}

/// The disk after the move.
pub open spec fn after_move(disk: Disk, step: Step) -> Disk {
    disk.remove(step.0).insert(step.1)
}

/// The disk after the moves, one after the other.
pub open spec fn after_moves(disk: Disk, steps: Seq<Step>) -> Disk
    decreases steps.len(),
{
    if steps.len() == 0 {
        disk
    } else {
        after_move(after_moves(disk, steps.drop_last()), steps.last())
    }
}

/// Each of the moves can be made when its turn comes.
pub open spec fn moves_apply(disk: Disk, steps: Seq<Step>) -> bool
    decreases steps.len(),
{
    if steps.len() == 0 {
        true
    } else {
        moves_apply(disk, steps.drop_last()) && can_move(
            after_moves(disk, steps.drop_last()),
            steps.last(),
        )
    }
}

/// The moves that take back `steps`: each move the other way round, the
/// last first.
pub open spec fn reversed(steps: Seq<Step>) -> Seq<Step> {
    Seq::new(steps.len(), |i: int| (steps[steps.len() - 1 - i].1, steps[steps.len() - 1 - i].0))
}

/// The moves of a plan as pairs.
pub open spec fn steps_of(moves: Seq<MoveOp>) -> Seq<Step> {
    Seq::new(moves.len(), |i: int| (moves[i].from@, moves[i].to@))
}

/// Why an action cannot be reversed on the disk, from 1 to 5; 0 where it
/// can.
///
/// The reasons, in the order in which they are looked for: the action is
/// a restore; it has no destination; it has no source; its source is there
/// again; its destination is gone.
pub open spec fn reverse_verdict(disk: Disk, a: Action) -> int {
    if a.action == ActionType::Restore {
        1
    } else if a.dst_path is None {
        2
    } else if a.src_path is None {
        3
    } else if disk.contains(a.src_path->0@) {
        4
    } else if !disk.contains(a.dst_path->0@) {
        5
    } else {
        0
    }
}

/// What is said where an action cannot be reversed.
pub open spec fn reverse_message(a: Action, verdict: int) -> Seq<char> {
    let what = if a.action == ActionType::Archive {
        "archive"@
    } else {
        "delete"@
    };
    if verdict == 1 {
        "Cannot undo restore action"@
    } else if verdict == 2 {
        "No destination path for "@ + what + " action"@
    } else if verdict == 3 {
        "No source path for "@ + what + " action"@
    } else if verdict == 4 {
        "Destination already exists: "@ + a.src_path->0@
    } else if a.action == ActionType::Archive {
        "Archive file not found: "@ + a.dst_path->0@
    } else {
        "Trash file not found: "@ + a.dst_path->0@
    }
}

/// The line that reports an action that cannot be reversed.
pub open spec fn failure_line(a: Action, verdict: int) -> Seq<char> {
    "Failed to reverse action "@ + decimal_text(
        if a.id is Some && a.id->0 >= 0 {
            a.id->0 as nat
        } else {
            0
        },
    ) + ": Undo Error: "@ + reverse_message(a, verdict)
}

/// The moves that reverse the first actions of a batch, up to the first
/// that cannot be reversed.
pub open spec fn planned_steps(disk: Disk, actions: Seq<Action>) -> Seq<Step>
    decreases actions.len(),
{
    if actions.len() == 0 {
        Seq::empty()
    } else {
        let before = planned_steps(disk, actions.drop_last());
        if before.len() == actions.len() - 1 && reverse_verdict(
            after_moves(disk, before),
            actions.last(),
        ) == 0 {
            before.push((actions.last().dst_path->0@, actions.last().src_path->0@))
        } else {
            before
        }
    }
}

/// The catalog `post` is the catalog `pre` with the restore of `a`
/// recorded at `now`: a restore action of the same batch and file is
/// appended, leading back from the destination of `a` to its source, and
/// the file entry, where there is one, has the source of `a` as its path.
pub open spec fn restore_logged(pre: &Database, post: &Database, a: Action, now: i64) -> bool {
    &&& a.src_path is Some
    &&& a.dst_path is Some
    &&& a.dst_path->0@.len() > 0
    &&& post.actions().len() == pre.actions().len() + 1
    &&& post.actions().drop_last() == pre.actions()
    &&& action_is(
        post.actions().last(),
        pre.next_action_id(),
        a.file_id,
        ActionType::Restore,
        text_or_empty(a.batch_id),
        a.dst_path->0@,
        a.src_path->0@,
        "undo_manager"@,
        now,
    )
    &&& post.next_action_id() == pre.next_action_id() + 1
    &&& post.files().len() == pre.files().len()
    &&& pre.has_id(a.file_id) ==> {
        let i = pre.index_of_id(a.file_id);
        &&& relocated(pre.files()[i], post.files()[i], a.src_path->0@)
        &&& forall|k: int|
            0 <= k < pre.files().len() && k != i ==> post.files()[k] == pre.files()[k]
    }
    &&& !pre.has_id(a.file_id) ==> post.files() == pre.files()
}

/// Why the restore of `a` cannot be recorded, from 1 to 3; 0 where it
/// can.
///
/// The reasons: the action lacks a source or a destination, or its
/// destination is empty; another file entry has the source as its path; no
/// action identifier is left.
pub open spec fn restore_log_verdict(db: &Database, a: Action) -> int {
    if a.src_path is None || a.dst_path is None || a.dst_path->0@.len() == 0 {
        1
    } else if db.has_id(a.file_id) && db.has_path(a.src_path->0@) && db.index_of_path(
        a.src_path->0@,
    ) != db.index_of_id(a.file_id) {
        2
    } else if db.next_action_id() == i64::MAX {
        3
    } else {
        0
    }
}

/// Plans and records the undoing of batches.
#[derive(Debug, Clone)]
pub struct UndoManager {
    pub supported_actions: Vec<ActionType>,
}

impl UndoManager {
    /// A manager that undoes archives and deletes.
    pub fn new() -> (out: UndoManager)
        ensures
            out.supported_actions@ == seq![ActionType::Archive, ActionType::Delete],
    {
        let mut supported_actions: Vec<ActionType> = Vec::new();
        supported_actions.push(ActionType::Archive);
        supported_actions.push(ActionType::Delete);
        UndoManager { supported_actions }
    }

    /// Whether batches whose first action is of `kind` can be undone.
    pub fn supports(&self, kind: ActionType) -> (r: bool)
        ensures
            r == self.supported_actions@.contains(kind),
    {
        let mut i: usize = 0;
        while i < self.supported_actions.len()
            invariant
                i <= self.supported_actions.len(),
                forall|j: int| 0 <= j < i ==> self.supported_actions@[j] != kind,
            decreases self.supported_actions.len() - i,
        {
            if self.supported_actions[i] == kind {
                return true;
            }
            i = i + 1;
        }
        false
    }

    /// The batch `batch_id` with its actions, earliest first. A batch
    /// without actions is not found.
    pub fn get_batch_by_id(&self, batch_id: &str, db: &Database) -> (out: Result<
        BatchInfo,
        OpsError,
    >)
        requires
            db.wf(),
        ensures
            match out {
                Ok(b) => {
                    let members = db.actions().filter(in_batch(batch_id@));
                    &&& members.len() > 0
                    &&& b.batch_id@ == batch_id@
                    &&& b.actions@ == arranged(members, created_asc_keys(members))
                    &&& b.file_count == b.actions@.len()
                    &&& b.action_type == b.actions@[0].action
                    &&& b.created_at == b.actions@[0].created_at
                },
                Err(e) => db.actions().filter(in_batch(batch_id@)).len() == 0 && e is UndoError
                    && e.detail() == "Batch "@ + batch_id@ + " not found"@,
            },
    {
        let actions = db.get_actions_by_batch_id(batch_id);
        if actions.len() == 0 {
            let a = join2("Batch ", batch_id);
            return Err(OpsError::UndoError(join2(a.as_str(), " not found")));
        }
        let action_type = actions[0].action;
        let created_at = actions[0].created_at;
        Ok(
            BatchInfo {
                batch_id: String::from_str(batch_id),
                action_type,
                file_count: actions.len(),
                created_at,
                actions,
            },
        )
    }

    /// The batch of the latest action.
    pub fn get_last_batch(&self, db: &Database) -> (out: Result<BatchInfo, OpsError>)
        requires
            db.wf(),
        ensures
            match out {
                Ok(b) => {
                    let id = text_or_empty(db.actions()[latest_index(db.actions())].batch_id);
                    let members = db.actions().filter(in_batch(id));
                    &&& db.actions().len() > 0
                    &&& b.batch_id@ == id
                    &&& b.actions@ == arranged(members, created_asc_keys(members))
                    &&& b.file_count == b.actions@.len()
                    &&& b.actions@.len() > 0
                    &&& b.action_type == b.actions@[0].action
                    &&& b.created_at == b.actions@[0].created_at
                },
                Err(e) => e is UndoError && (if db.actions().len() == 0 {
                    e.detail() == "No batches found"@
                } else {
                    e.detail() == "Batch "@ + text_or_empty(
                        db.actions()[latest_index(db.actions())].batch_id,
                    ) + " not found"@
                }),
            },
    {
        match db.get_latest_batch_id() {
            Some(id) => self.get_batch_by_id(id.as_str(), db),
            None => Err(OpsError::UndoError(String::from_str("No batches found"))),
        }
    }

    /// The batches that can be undone, newest first, each with its
    /// actions.
    pub fn get_undoable_batches(&self, db: &Database) -> (out: Vec<BatchInfo>)
        requires
            db.wf(),
        ensures
            out@.len() == undoable_batches(db.actions()).len(),
            forall|k: int|
                0 <= k < out@.len() ==> {
                    let id = undoable_batches(db.actions())[k];
                    let members = db.actions().filter(in_batch(id));
                    &&& (#[trigger] out@[k]).batch_id@ == id
                    &&& is_undoable(db.actions(), id)
                    &&& out@[k].actions@ == arranged(members, created_asc_keys(members))
                    &&& out@[k].actions@.len() > 0
                    &&& out@[k].file_count == out@[k].actions@.len()
                    &&& out@[k].action_type == out@[k].actions@[0].action
                    &&& out@[k].created_at == out@[k].actions@[0].created_at
                },
    {
        let ids = db.get_undoable_batches();
        let mut out: Vec<BatchInfo> = Vec::new();
        let mut i: usize = 0;
        while i < ids.len()
            invariant
                db.wf(),
                i <= ids.len(),
                out@.len() == i,
                crate::db::database::string_views(ids@) == undoable_batches(db.actions()),
                forall|k: int| 0 <= k < ids@.len() ==> is_undoable(db.actions(), (#[trigger] ids@[k])@),
                forall|k: int|
                    0 <= k < i ==> {
                        let id = undoable_batches(db.actions())[k];
                        let members = db.actions().filter(in_batch(id));
                        &&& (#[trigger] out@[k]).batch_id@ == id
                        &&& is_undoable(db.actions(), id)
                        &&& out@[k].actions@ == arranged(members, created_asc_keys(members))
                        &&& out@[k].actions@.len() > 0
                        &&& out@[k].file_count == out@[k].actions@.len()
                        &&& out@[k].action_type == out@[k].actions@[0].action
                        &&& out@[k].created_at == out@[k].actions@[0].created_at
                    },
            decreases ids.len() - i,
        {
            proof {
                assert(crate::db::database::string_views(ids@)[i as int] == ids@[i as int]@);
                let id = ids@[i as int]@;
                assert(is_undoable(db.actions(), id));
                let w = choose|w: int| crate::db::database::is_forward_member(db.actions(), id, w);
                db.actions().lemma_filter_contains(in_batch(id), w);
            }
            match self.get_batch_by_id(ids[i].as_str(), db) {
                Ok(b) => {
                    out.push(b);
                },
                Err(_) => {
                    assert(false);
                },
            }
            i = i + 1;
        }
        out
    }

    /// The moves that take back `done`: each the other way round, the
    /// last first.
    pub fn rollback_moves(&self, done: &Vec<MoveOp>) -> (out: Vec<MoveOp>)
        ensures
            steps_of(out@) == reversed(steps_of(done@)),
    {
        let mut out: Vec<MoveOp> = Vec::new();
        let n = done.len();
        let mut i: usize = 0;
        while i < n
            invariant
                i <= n,
                n == done@.len(),
                out@.len() == i,
                forall|j: int|
                    0 <= j < i ==> (#[trigger] out@[j]).from@ == done@[n - 1 - j].to@ && out@[j].to@
                        == done@[n - 1 - j].from@,
            decreases n - i,
        {
            let m = &done[n - 1 - i];
            out.push(MoveOp { from: m.to.clone(), to: m.from.clone() });
            i = i + 1;
        }
        assert(steps_of(out@) =~= reversed(steps_of(done@)));
        out
    }

    /// Whether the action can be reversed, given the paths that are
    /// there.
    pub fn can_restore_action(&self, action: &Action, present: &Vec<String>) -> (r: bool)
        ensures
            r == (reverse_verdict(disk_of(present@), *action) == 0),
    {
        if action.action == ActionType::Restore {
            return false;
        }
        match (&action.dst_path, &action.src_path) {
            (Some(dst), Some(src)) => is_present(present, dst) && !is_present(present, src),
            _ => false,
        }
    }

    /// What reversing each action of the batch would do, in words: one
    /// line for each action that has both of its paths, in their order.
    pub fn get_restore_preview(&self, batch: &BatchInfo) -> (out: Vec<String>)
        ensures
            string_views(out@) == preview_lines(batch.actions@),
    {
        let mut out: Vec<String> = Vec::new();
        let mut i: usize = 0;
        assert(batch.actions@.take(0) =~= Seq::<Action>::empty());
        assert(string_views(out@) =~= preview_lines(batch.actions@.take(0)));
        while i < batch.actions.len()
            invariant
                i <= batch.actions.len(),
                string_views(out@) == preview_lines(batch.actions@.take(i as int)),
            decreases batch.actions.len() - i,
        {
            proof {
                assert(batch.actions@.take(i + 1).drop_last() == batch.actions@.take(i as int));
                assert(batch.actions@.take(i + 1).last() == batch.actions@[i as int]);
            }
            let a = &batch.actions[i];
            match (&a.src_path, &a.dst_path) {
                (Some(_), Some(dst)) => {
                    let line = match a.action {
                        ActionType::Archive => {
                            let t = join2("Restore ", dst.as_str());
                            join2(t.as_str(), " from archive")
                        },
                        ActionType::Delete => {
                            let t = join2("Restore ", dst.as_str());
                            join2(t.as_str(), " from trash")
                        },
                        ActionType::Restore => join2("Cannot undo restore of ", dst.as_str()),
                    };
                    let ghost before = out@;
                    out.push(line);
                    assert(string_views(out@) =~= string_views(before).push(line@));
                },
                _ => {},
            }
            i = i + 1;
        }
        assert(batch.actions@.take(batch.actions@.len() as int) == batch.actions@);
        out
    }
}

/// What reversing the action would do, in words.
pub open spec fn preview_line(a: Action) -> Seq<char> {
    match a.action {
        ActionType::Archive => "Restore "@ + a.dst_path->0@ + " from archive"@,
        ActionType::Delete => "Restore "@ + a.dst_path->0@ + " from trash"@,
        ActionType::Restore => "Cannot undo restore of "@ + a.dst_path->0@,
    }
}

/// The lines of a preview: one for each action that has both of its
/// paths, in their order.
pub open spec fn preview_lines(actions: Seq<Action>) -> Seq<Seq<char>>
    decreases actions.len(),
{
    if actions.len() == 0 {
        Seq::empty()
    } else {
        let rest = preview_lines(actions.drop_last());
        if actions.last().src_path is Some && actions.last().dst_path is Some {
            rest.push(preview_line(actions.last()))
        } else {
            rest
        }
    }
}

/// Whether the path `p` is among `present`.
pub fn is_present(present: &Vec<String>, p: &String) -> (r: bool)
    ensures
        r == disk_of(present@).contains(p@),
{
    let mut i: usize = 0;
    while i < present.len()
        invariant
            i <= present.len(),
            forall|j: int| 0 <= j < i ==> (#[trigger] present@[j])@ != p@,
        decreases present.len() - i,
    {
        if present[i] == *p {
            return true;
        }
        i = i + 1;
    }
    false
}

impl UndoManager {
    fn reverse_check(action: &Action, present: &Vec<String>) -> (v: u8)
        ensures
            v == reverse_verdict(disk_of(present@), *action),
    {
        if action.action == ActionType::Restore {
            return 1;
        }
        let dst = match &action.dst_path {
            Some(d) => d,
            None => {
                return 2;
            },
        };
        let src = match &action.src_path {
            Some(s) => s,
            None => {
                return 3;
            },
        };
        if is_present(present, src) {
            return 4;
        }
        if !is_present(present, dst) {
            return 5;
        }
        0
    }

    fn failure_text(action: &Action, v: u8) -> (out: String)
        requires
            1 <= v <= 5,
            v == 4 ==> action.src_path is Some,
            v == 5 ==> action.dst_path is Some,
        ensures
            out@ == failure_line(*action, v as int),
    {
        let id: u64 = match action.id {
            Some(n) => if n >= 0 {
                n as u64
            } else {
                0
            },
            None => 0,
        };
        let what = if action.action == ActionType::Archive {
            "archive"
        } else {
            "delete"
        };
        let message = if v == 1 {
            String::from_str("Cannot undo restore action")
        } else if v == 2 {
            let t = join2("No destination path for ", what);
            join2(t.as_str(), " action")
        } else if v == 3 {
            let t = join2("No source path for ", what);
            join2(t.as_str(), " action")
        } else if v == 4 {
            match &action.src_path {
                Some(src) => join2("Destination already exists: ", src.as_str()),
                None => String::new(),
            }
        } else {
            match &action.dst_path {
                Some(dst) => if action.action == ActionType::Archive {
                    join2("Archive file not found: ", dst.as_str())
                } else {
                    join2("Trash file not found: ", dst.as_str())
                },
                None => String::new(),
            }
        };
        let a = join2("Failed to reverse action ", decimal_string(id).as_str());
        let b = join2(a.as_str(), ": Undo Error: ");
        let out = join2(b.as_str(), message.as_str());
        assert(out@ =~= failure_line(*action, v as int));
        out
    }

    /// The plan for undoing the batch, given the paths that are there.
    ///
    /// The actions are taken in order. An action is reversed by moving its
    /// file from where the action put it back to where it came from; that
    /// needs the file to be there and its old place to be free, also after
    /// the moves planned before. Planning stops at the first action that
    /// cannot be reversed, and says why.
    pub fn plan_restore(&self, batch: &BatchInfo, present: &Vec<String>) -> (out: UndoPlan)
        ensures
            steps_of(out.moves@) == planned_steps(disk_of(present@), batch.actions@),
            moves_apply(disk_of(present@), steps_of(out.moves@)),
            out.failure is None <==> out.moves@.len() == batch.actions@.len(),
            out.failure matches Some(line) ==> {
                let k = out.moves@.len() as int;
                let disk = after_moves(disk_of(present@), steps_of(out.moves@));
                &&& reverse_verdict(disk, batch.actions@[k]) != 0
                &&& line@ == failure_line(batch.actions@[k], reverse_verdict(disk, batch.actions@[k]))
            },
    {
        let ghost disk0 = disk_of(present@);
        let mut now_present = duplicate_all(present);
        let mut moves: Vec<MoveOp> = Vec::new();
        let mut i: usize = 0;
        while i < batch.actions.len()
            invariant
                i <= batch.actions.len(),
                disk0 == disk_of(present@),
                moves@.len() == i,
                steps_of(moves@) == planned_steps(disk0, batch.actions@.take(i as int)),
                moves_apply(disk0, steps_of(moves@)),
                disk_of(now_present@) == after_moves(disk0, steps_of(moves@)),
            decreases batch.actions.len() - i,
        {
            let action = &batch.actions[i];
            let ghost done = steps_of(moves@);
            let ghost disk = after_moves(disk0, done);
            proof {
                assert(batch.actions@.take(i + 1).drop_last() == batch.actions@.take(i as int));
                assert(batch.actions@.take(i + 1).last() == batch.actions@[i as int]);
            }
            let v = Self::reverse_check(action, &now_present);
            if v != 0 {
                let line = Self::failure_text(action, v);
                proof {
                    lemma_plan_stops(disk0, batch.actions@, i as int);
                }
                return UndoPlan { moves, failure: Some(line) };
            }
            let (src, dst) = match (&action.src_path, &action.dst_path) {
                (Some(s), Some(d)) => (s.clone(), d.clone()),
                _ => (String::new(), String::new()),
            };
            let ghost step: Step = (dst@, src@);
            remove_path(&mut now_present, &dst);
            let ghost mid = now_present@;
            now_present.push(src.clone());
            moves.push(MoveOp { from: dst, to: src });
            proof {
                assert(steps_of(moves@) =~= done.push(step));
                assert(steps_of(moves@).drop_last() == done);
                lemma_disk_push(mid, src);
                assert(disk_of(mid) =~= disk.remove(dst@));
                assert(disk_of(now_present@) =~= after_move(disk, step));
            }
            i = i + 1;
        }
        proof {
            assert(batch.actions@.take(batch.actions@.len() as int) == batch.actions@);
        }
        UndoPlan { moves, failure: None }
    }

    /// Whether every action of the batch can be reversed, given the paths
    /// that are there.
    pub fn can_undo_batch(&self, batch: &BatchInfo, present: &Vec<String>) -> (r: bool)
        ensures
            r == (planned_steps(disk_of(present@), batch.actions@).len() == batch.actions@.len()),
    {
        let plan = self.plan_restore(batch, present);
        assert(steps_of(plan.moves@).len() == plan.moves@.len());
        plan.failure.is_none()
    }

    /// The plan for undoing the batch `target_batch_id`. A batch that is
    /// not there, or whose first action is of a kind that cannot be undone,
    /// is an error.
    pub fn undo_batch(&self, target_batch_id: &str, db: &Database, present: &Vec<String>) -> (out:
        Result<(BatchInfo, UndoPlan), OpsError>)
        requires
            db.wf(),
        ensures
            match out {
                Ok((batch, plan)) => {
                    let members = db.actions().filter(in_batch(target_batch_id@));
                    &&& members.len() > 0
                    &&& batch.batch_id@ == target_batch_id@
                    &&& batch.actions@ == arranged(members, created_asc_keys(members))
                    &&& self.supported_actions@.contains(batch.actions@[0].action)
                    &&& steps_of(plan.moves@) == planned_steps(disk_of(present@), batch.actions@)
                    &&& moves_apply(disk_of(present@), steps_of(plan.moves@))
                    &&& plan.failure is None <==> plan.moves@.len() == batch.actions@.len()
                },
                Err(e) => {
                    let members = db.actions().filter(in_batch(target_batch_id@));
                    &&& e is UndoError
                    &&& members.len() == 0 ==> e.detail() == "Batch "@ + target_batch_id@
                        + " not found"@
                    &&& members.len() > 0 ==> {
                        let first = arranged(members, created_asc_keys(members))[0];
                        &&& !self.supported_actions@.contains(first.action)
                        &&& e.detail() == "Cannot undo action type: "@ + kind_word(first.action)
                    }
                },
            },
    {
        let batch = match self.get_batch_by_id(target_batch_id, db) {
            Ok(b) => b,
            Err(e) => {
                return Err(e);
            },
        };
        if !self.supports(batch.action_type) {
            return Err(
                OpsError::UndoError(join2("Cannot undo action type: ", kind_name(batch.action_type))),
            );
        }
        let plan = self.plan_restore(&batch, present);
        Ok((batch, plan))
    }

    /// The plan for undoing the newest batch that can be undone. Where
    /// no batch can be undone, or the first action of that batch is of a
    /// kind that cannot be undone, this is an error.
    pub fn undo_last(&self, db: &Database, present: &Vec<String>) -> (out: Result<
        (BatchInfo, UndoPlan),
        OpsError,
    >)
        requires
            db.wf(),
        ensures
            match out {
                Ok((batch, plan)) => {
                    let id = undoable_batches(db.actions())[0];
                    let members = db.actions().filter(in_batch(id));
                    &&& undoable_batches(db.actions()).len() > 0
                    &&& batch.batch_id@ == id
                    &&& batch.actions@ == arranged(members, created_asc_keys(members))
                    &&& batch.actions@.len() > 0
                    &&& self.supported_actions@.contains(batch.actions@[0].action)
                    &&& steps_of(plan.moves@) == planned_steps(disk_of(present@), batch.actions@)
                    &&& moves_apply(disk_of(present@), steps_of(plan.moves@))
                    &&& plan.failure is None <==> plan.moves@.len() == batch.actions@.len()
                },
                Err(e) => e is UndoError && (if undoable_batches(db.actions()).len() == 0 {
                    e.detail() == "No batches found"@
                } else {
                    let id = undoable_batches(db.actions())[0];
                    let members = db.actions().filter(in_batch(id));
                    let first = arranged(members, created_asc_keys(members))[0];
                    &&& !self.supported_actions@.contains(first.action)
                    &&& e.detail() == "Cannot undo action type: "@ + kind_word(first.action)
                }),
            },
    {
        let mut batches = self.get_undoable_batches(db);
        if batches.len() == 0 {
            return Err(OpsError::UndoError(String::from_str("No batches found")));
        }
        let batch = batches.remove(0);
        if !self.supports(batch.action_type) {
            return Err(
                OpsError::UndoError(join2("Cannot undo action type: ", kind_name(batch.action_type))),
            );
        }
        let plan = self.plan_restore(&batch, present);
        Ok((batch, plan))
    }

    /// Records that the action was reversed at `now`: a restore action of
    /// the same batch is appended, and the file entry gets back the path
    /// that it had before the action. Fails, changing nothing, where the
    /// action lacks a path or its destination is empty, another file entry
    /// has the old path, or no action identifier is left.
    pub fn log_restore_action(&self, action: &Action, db: &mut Database, now: i64) -> (out: Result<
        (),
        OpsError,
    >)
        requires
            old(db).wf(),
        ensures
            final(db).wf(),
            final(db).roots() == old(db).roots(),
            final(db).next_root_id() == old(db).next_root_id(),
            final(db).prefs() == old(db).prefs(),
            final(db).slots() == old(db).slots(),
            final(db).next_file_id() == old(db).next_file_id(),
            final(db).next_staged_id() == old(db).next_staged_id(),
            out is Ok <==> restore_log_verdict(old(db), *action) == 0,
            out is Ok ==> restore_logged(old(db), final(db), *action, now),
            out matches Err(e) ==> {
                let v = restore_log_verdict(old(db), *action);
                &&& final(db).files() == old(db).files()
                &&& final(db).actions() == old(db).actions()
                &&& final(db).next_action_id() == old(db).next_action_id()
                &&& e is UndoError
                &&& v == 1 ==> e.detail() == "Failed to log restore action: no path"@
                &&& v == 2 ==> e.detail()
                    == "Failed to log restore action: unique constraint failed"@
                &&& v == 3 ==> e.detail() == "Failed to log restore action: no identifier left"@
            },
    {
        let (src, dst) = match (&action.src_path, &action.dst_path) {
            (Some(s), Some(d)) => (s, d),
            _ => {
                return Err(
                    OpsError::UndoError(String::from_str("Failed to log restore action: no path")),
                );
            },
        };
        if crate::text::chars_of(dst.as_str()).len() == 0 {
            return Err(
                OpsError::UndoError(String::from_str("Failed to log restore action: no path")),
            );
        }
        let known = db.get_file_by_id(action.file_id).is_some();
        if known {
            match db.get_file_id_by_path(src.as_str()) {
                Some(other) => {
                    if other != action.file_id {
                        proof {
                            let i = db.index_of_id(action.file_id);
                            let j = db.index_of_path(src@);
                            assert(db.files()[j].id == Some(other));
                        }
                        return Err(
                            OpsError::UndoError(
                                String::from_str(
                                    "Failed to log restore action: unique constraint failed",
                                ),
                            ),
                        );
                    }
                    proof {
                        let i = db.index_of_id(action.file_id);
                        let j = db.index_of_path(src@);
                        assert(0 <= j < db.files().len() && db.files()[j].path@ == src@);
                        assert(0 <= i < db.files().len() && db.files()[i].id == Some(
                            action.file_id,
                        ));
                        if j < i {
                            assert(db.files()[j].id->0 < db.files()[i].id->0);
                        } else if i < j {
                            assert(db.files()[i].id->0 < db.files()[j].id->0);
                        }
                    }
                },
                None => {},
            }
        }
        let restore = NewAction {
            file_id: action.file_id,
            action: ActionType::Restore,
            batch_id: Some(
                match &action.batch_id {
                    Some(b) => b.clone(),
                    None => String::new(),
                },
            ),
            src_path: Some(dst.clone()),
            dst_path: Some(src.clone()),
            origin: Some(String::from_str("undo_manager")),
            note: None,
        };
        match db.insert_action(&restore, now) {
            Ok(_) => {},
            Err(_) => {
                return Err(
                    OpsError::UndoError(
                        String::from_str("Failed to log restore action: no identifier left"),
                    ),
                );
            },
        }
        proof {
            assert(db.actions().drop_last() =~= old(db).actions());
            assert(db.has_id(action.file_id) == old(db).has_id(action.file_id));
            assert(db.has_path(src@) == old(db).has_path(src@));
        }
        let moved = db.update_file_location(action.file_id, src.as_str());
        assert(moved is Ok);
        Ok(())
    }

    /// What an undo did, once its moves were made or taken back.
    ///
    /// Where the plan could not reverse every action, or a move of the
    /// plan failed after `move_failure.0` moves for the reason
    /// `move_failure.1`, the moves that were made have been taken back: the
    /// result says so, counts the moves that had been made, and nothing is
    /// recorded. Otherwise the reversal of each action is recorded, one
    /// after the other; what cannot be recorded is reported.
    pub fn complete_undo(
        &self,
        batch: &BatchInfo,
        plan: &UndoPlan,
        move_failure: Option<(usize, String)>,
        db: &mut Database,
        now: i64,
        duration_ms: u64,
    ) -> (out: UndoResult)
        requires
            old(db).wf(),
        ensures
            final(db).wf(),
            out.batch_id@ == batch.batch_id@,
            out.duration_ms == duration_ms,
            out.rollback_performed == (plan.failure is Some || move_failure is Some),
            out.actions_reversed == out.files_restored,
            out.rollback_performed ==> {
                &&& final(db).same_files(old(db))
                &&& final(db).same_log_and_settings(old(db))
                &&& out.errors@.len() == 1
                &&& out.errors@[0]@ == (match (plan.failure, move_failure) {
                    (Some(line), _) => line@,
                    (None, Some(f)) => f.1@,
                    (None, None) => Seq::empty(),
                })
                &&& out.actions_reversed == (match (plan.failure, move_failure) {
                    (Some(_), _) => plan.moves@.len(),
                    (None, Some(f)) => f.0 as nat,
                    (None, None) => 0,
                })
            },
            !out.rollback_performed ==> {
                &&& out.actions_reversed == batch.actions@.len()
                &&& recorded_in_turn(old(db), final(db), batch.actions@, now, out.errors@.len() as int)
            },
    {
        match &plan.failure {
            Some(line) => {
                let mut errors: Vec<String> = Vec::new();
                errors.push(line.clone());
                return UndoResult {
                    batch_id: batch.batch_id.clone(),
                    actions_reversed: plan.moves.len(),
                    files_restored: plan.moves.len(),
                    duration_ms,
                    errors,
                    rollback_performed: true,
                };
            },
            None => {},
        }
        match move_failure {
            Some((made, line)) => {
                let mut errors: Vec<String> = Vec::new();
                errors.push(line);
                return UndoResult {
                    batch_id: batch.batch_id.clone(),
                    actions_reversed: made,
                    files_restored: made,
                    duration_ms,
                    errors,
                    rollback_performed: true,
                };
            },
            None => {},
        }
        let mut errors: Vec<String> = Vec::new();
        let ghost mut states: Seq<Database> = seq![*db];
        let mut i: usize = 0;
        while i < batch.actions.len()
            invariant
                i <= batch.actions.len(),
                db.wf(),
                errors@.len() <= i,
                states.len() == i + 1,
                states[0] == *old(db),
                states[i as int] == *db,
                chain_ok(states, batch.actions@, now, i as int),
                count_failed(states, batch.actions@, i as int) == errors@.len(),
            decreases batch.actions.len() - i,
        {
            let ghost before = *db;
            match self.log_restore_action(&batch.actions[i], db, now) {
                Ok(_) => {},
                Err(e) => {
                    errors.push(e.to_string());
                },
            }
            proof {
                let prev = states;
                states = states.push(*db);
                assert(states.drop_last() == prev);
                assert forall|k: int| 0 <= k < i + 1 implies #[trigger] step_ok(
                    states[k],
                    states[k + 1],
                    batch.actions@[k],
                    now,
                ) by {
                    if k < i {
                        assert(step_ok(prev[k], prev[k + 1], batch.actions@[k], now));
                    }
                }
                lemma_count_failed_step(prev, states, batch.actions@, i as int);
            }
            i = i + 1;
        }
        UndoResult {
            batch_id: batch.batch_id.clone(),
            actions_reversed: batch.actions.len(),
            files_restored: batch.actions.len(),
            duration_ms,
            errors,
            rollback_performed: false,
        }
    }
}

/// One step of recording: the reversal of `a` is recorded, or, where it
/// cannot be, nothing changes.
pub open spec fn step_ok(pre: Database, post: Database, a: Action, now: i64) -> bool {
    if restore_log_verdict(&pre, a) == 0 {
        restore_logged(&pre, &post, a, now) && post.wf()
    } else {
        post.same_files(&pre) && post.same_log_and_settings(&pre)
    }
}

/// The catalogs `states` follow one from the other by recording the
/// reversal of the first `n` of `actions`.
pub open spec fn chain_ok(states: Seq<Database>, actions: Seq<Action>, now: i64, n: int) -> bool {
    forall|k: int| 0 <= k < n ==> #[trigger] step_ok(states[k], states[k + 1], actions[k], now)
}

/// How many of the first `n` reversals could not be recorded.
pub open spec fn count_failed(states: Seq<Database>, actions: Seq<Action>, n: int) -> int
    decreases n,
{
    if n <= 0 {
        0
    } else {
        count_failed(states, actions, n - 1) + (if restore_log_verdict(
            &states[n - 1],
            actions[n - 1],
        ) == 0 {
            0int
        } else {
            1int
        })
    }
}

/// The catalog `post` follows from `pre` by recording the reversal of
/// each of `actions` in turn, of which `failed` could not be recorded.
pub open spec fn recorded_in_turn(
    pre: &Database,
    post: &Database,
    actions: Seq<Action>,
    now: i64,
    failed: int,
) -> bool {
    exists|states: Seq<Database>|
        {
            &&& states.len() == actions.len() + 1
            &&& states[0] == *pre
            &&& states[actions.len() as int] == *post
            &&& #[trigger] chain_ok(states, actions, now, actions.len() as int)
            &&& count_failed(states, actions, actions.len() as int) == failed
        }
}

proof fn lemma_count_failed_step(
    prev: Seq<Database>,
    states: Seq<Database>,
    actions: Seq<Action>,
    i: int,
)
    requires
        0 <= i < actions.len(),
        prev.len() == i + 1,
        states.len() == i + 2,
        states.drop_last() == prev,
    ensures
        count_failed(states, actions, i) == count_failed(prev, actions, i),
        count_failed(states, actions, i + 1) == count_failed(prev, actions, i) + (
        if restore_log_verdict(&prev[i], actions[i]) == 0 {
            0int
        } else {
            1int
        }),
{
    lemma_count_failed_same(prev, states, actions, i);
    assert(states[i] == prev[i]);
}

proof fn lemma_count_failed_same(a: Seq<Database>, b: Seq<Database>, actions: Seq<Action>, n: int)
    requires
        0 <= n <= a.len(),
        n <= b.len(),
        forall|k: int| 0 <= k < n ==> a[k] == b[k],
    ensures
        count_failed(a, actions, n) == count_failed(b, actions, n),
    decreases n,
{
    if n > 0 {
        lemma_count_failed_same(a, b, actions, n - 1);
    }
}

/// One more string among those present puts its path on the disk.
proof fn lemma_disk_push(present: Seq<String>, s: String)
    ensures
        disk_of(present.push(s)) == disk_of(present).insert(s@),
{
    let a = disk_of(present.push(s));
    let b = disk_of(present).insert(s@);
    assert forall|p: Seq<char>| a.contains(p) == b.contains(p) by {
        if a.contains(p) {
            let i = choose|i: int|
                0 <= i < present.push(s).len() && (#[trigger] present.push(s)[i])@ == p;
            if i < present.len() {
                assert(present[i]@ == p);
            }
        }
        if disk_of(present).contains(p) {
            let i = choose|i: int| 0 <= i < present.len() && (#[trigger] present[i])@ == p;
            assert(present.push(s)[i]@ == p);
        }
        if p == s@ {
            assert(present.push(s)[present.len() as int]@ == p);
        }
    }
    assert(a =~= b);
}

/// Planning stops at an action that cannot be reversed.
proof fn lemma_plan_stops(disk: Disk, actions: Seq<Action>, i: int)
    requires
        0 <= i < actions.len(),
        planned_steps(disk, actions.take(i)).len() == i,
        reverse_verdict(after_moves(disk, planned_steps(disk, actions.take(i))), actions[i]) != 0,
    ensures
        planned_steps(disk, actions) == planned_steps(disk, actions.take(i)),
    decreases actions.len() - i,
{
    let n = actions.len() as int;
    assert(actions.take(n) == actions);
    lemma_plan_stops_upto(disk, actions, i, n);
}

proof fn lemma_plan_stops_upto(disk: Disk, actions: Seq<Action>, i: int, m: int)
    requires
        0 <= i < m <= actions.len(),
        planned_steps(disk, actions.take(i)).len() == i,
        reverse_verdict(after_moves(disk, planned_steps(disk, actions.take(i))), actions[i]) != 0,
    ensures
        planned_steps(disk, actions.take(m)) == planned_steps(disk, actions.take(i)),
    decreases m - i,
{
    assert(actions.take(m).drop_last() == actions.take(m - 1));
    assert(actions.take(m).last() == actions[m - 1]);
    if m - 1 > i {
        lemma_plan_stops_upto(disk, actions, i, m - 1);
    }
}

/// The name of an action kind as it is written in messages.
pub open spec fn kind_word(kind: ActionType) -> Seq<char> {
    match kind {
        ActionType::Archive => "Archive"@,
        ActionType::Delete => "Delete"@,
        ActionType::Restore => "Restore"@,
    }
}

fn kind_name(kind: ActionType) -> (out: &'static str)
    ensures
        out@ == kind_word(kind),
{
    match kind {
        ActionType::Archive => "Archive",
        ActionType::Delete => "Delete",
        ActionType::Restore => "Restore",
    }
}

/// Takes the first string with the text of `p` out of `present`.
fn remove_path(present: &mut Vec<String>, p: &String)
    requires
        disk_of(old(present)@).contains(p@),
    ensures
        disk_of(final(present)@) == disk_of(old(present)@).remove(p@) || disk_of(final(present)@)
            == disk_of(old(present)@),
        forall|q: Seq<char>| q != p@ ==> disk_of(final(present)@).contains(q) == disk_of(
            old(present)@,
        ).contains(q),
        !disk_of(final(present)@).contains(p@),
{
    let mut kept: Vec<String> = Vec::new();
    let mut i: usize = 0;
    while i < present.len()
        invariant
            i <= present.len(),
            *present == *old(present),
            forall|j: int| 0 <= j < kept@.len() ==> (#[trigger] kept@[j])@ != p@,
            forall|q: Seq<char>|
                q != p@ ==> (disk_of(kept@).contains(q) <==> exists|j: int|
                    0 <= j < i && (#[trigger] present@[j])@ == q),
        decreases present.len() - i,
    {
        let ghost before = kept@;
        if present[i] != *p {
            kept.push(present[i].clone());
        }
        proof {
            assert forall|q: Seq<char>| q != p@ implies (disk_of(kept@).contains(q) <==> exists|
                j: int,
            | 0 <= j < i + 1 && (#[trigger] present@[j])@ == q) by {
                if disk_of(kept@).contains(q) {
                    let k = choose|k: int| 0 <= k < kept@.len() && (#[trigger] kept@[k])@ == q;
                    if k < before.len() {
                        assert(before[k]@ == q);
                        assert(disk_of(before).contains(q));
                    } else {
                        assert(present@[i as int]@ == q);
                    }
                }
                if exists|j: int| 0 <= j < i + 1 && (#[trigger] present@[j])@ == q {
                    let j = choose|j: int| 0 <= j < i + 1 && (#[trigger] present@[j])@ == q;
                    if j < i {
                        assert(disk_of(before).contains(q));
                        let k = choose|k: int|
                            0 <= k < before.len() && (#[trigger] before[k])@ == q;
                        assert(kept@[k]@ == q);
                    } else {
                        assert(kept@[kept@.len() - 1]@ == q);
                    }
                }
            }
        }
        i = i + 1;
    }
    proof {
        assert(disk_of(kept@) =~= disk_of(present@).remove(p@)) by {
            assert forall|q: Seq<char>| disk_of(kept@).contains(q) == disk_of(present@).remove(
                p@,
            ).contains(q) by {
                if q != p@ {
                    if disk_of(present@).contains(q) {
                        let j = choose|j: int|
                            0 <= j < present@.len() && (#[trigger] present@[j])@ == q;
                    }
                }
            }
        }
    }
    *present = kept;
}

} // verus!
