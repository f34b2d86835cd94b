//! The catalog and its operations.
//!
//! The catalog is held in memory; each operation either applies as a whole
//! or leaves the catalog as it was. File entries are never removed: a file
//! that is gone is marked deleted and left out of the active queries.

use crate::models::{
    duplicate_all, Action, ActionType, Duplicate, File, NewAction, NewFile, NewStagedFile,
    Preference, StagedFileRecord, StagedStatus, WatchedRoot,
};
use crate::order::{arranged, key1, key2, key_views};
use crate::paths::{is_under_root, parent_dir, parent_dir_of, root_prefix_chars};
use crate::seqs::{arrange, first_n, lemma_masked_is_filter, masked, pick_by_mask};
use crate::text::{chars_of, starts_with};
use vstd::prelude::*;
use vstd::string::{StrSliceExecFns, StringExecFns};

verus! {

/// Why the store refused an operation.
#[derive(Debug, Clone, Copy, PartialEq, Eq, Structural)]
pub enum StoreError {
    /// A value that must be unique is already taken.
    UniqueViolation,
    /// A record refers to a file entry that is not there, or not live.
    ForeignKeyViolation,
    /// A record breaks a rule of its table.
    CheckViolation,
    /// No identifier is left to give out.
    IdsExhausted,
}

/// The entry that a refresh leaves: the observed metadata replace the
/// recorded ones, a full digest only where one was observed; the entry is
/// live again and was last seen at `now`, or when it was last seen before
/// if that is later.
pub open spec fn refreshed(old: File, new: NewFile, now: i64) -> File {
    File {
        id: old.id,
        path: old.path,
        parent_dir: new.parent_dir,
        mime: new.mime,
        size_bytes: new.size_bytes,
        created_at: old.created_at,
        modified_at: new.modified_at,
        accessed_at: new.accessed_at,
        last_opened_at: old.last_opened_at,
        partial_sha1: new.partial_sha1,
        sha1: if new.sha1 is Some {
            new.sha1
        } else {
            old.sha1
        },
        first_seen_at: old.first_seen_at,
        last_seen_at: if now > old.last_seen_at {
            now
        } else {
            old.last_seen_at
        },
        is_deleted: false,
        is_staged: old.is_staged,
        cooloff_until: old.cooloff_until,
    }
}

/// The entry made for a path that is seen for the first time.
pub open spec fn created(new: NewFile, id: i64, now: i64) -> File {
    File {
        id: Some(id),
        path: new.path,
        parent_dir: new.parent_dir,
        mime: new.mime,
        size_bytes: new.size_bytes,
        created_at: if new.created_at is Some {
            new.created_at->0
        } else {
            now
        },
        modified_at: new.modified_at,
        accessed_at: new.accessed_at,
        last_opened_at: None,
        partial_sha1: new.partial_sha1,
        sha1: new.sha1,
        first_seen_at: now,
        last_seen_at: now,
        is_deleted: false,
        is_staged: false,
        cooloff_until: None,
    }
}

/// The entry marked as gone: deleted, not staged, without cool-off.
pub open spec fn tombstoned(f: File) -> File {
    File { is_deleted: true, is_staged: false, cooloff_until: None, ..f }
}

/// The texts of a list of strings.
pub open spec fn string_views(v: Seq<String>) -> Seq<Seq<char>> {
    Seq::new(v.len(), |i: int| v[i]@)
}

/// A live entry under `root` whose path was not seen.
pub open spec fn is_missing(f: File, root: Seq<char>, seen: Seq<Seq<char>>) -> bool {
    !f.is_deleted && is_under_root(f.path@, root) && !seen.contains(f.path@)
}

/// An entry with a full digest that is live.
pub open spec fn has_live_digest(f: File) -> bool {
    !f.is_deleted && f.sha1 is Some && f.sha1->0@.len() > 0
}

/// The test for a live entry.
pub open spec fn live() -> spec_fn(File) -> bool {
    |f: File| !f.is_deleted
}

/// The test for a live entry whose parent directory is `dir`.
pub open spec fn live_in_dir(dir: Seq<char>) -> spec_fn(File) -> bool {
    |f: File| !f.is_deleted && f.parent_dir@ == dir
}

/// The test for a live entry whose full digest is `digest`.
pub open spec fn live_with_digest(digest: Seq<char>) -> spec_fn(File) -> bool {
    |f: File| has_live_digest(f) && f.sha1->0@ == digest
}

/// The live entries with the full digest `digest`, by ascending identifier.
pub open spec fn digest_group(files: Seq<File>, digest: Seq<char>) -> Seq<File> {
    files.filter(live_with_digest(digest))
}

/// The text of an optional string; nothing where it is absent.
pub open spec fn text_or_empty(s: Option<String>) -> Seq<char> {
    match s {
        Some(t) => t@,
        None => Seq::empty(),
    }
}

/// The action recorded for `new` under the identifier `id` at time `now`.
pub open spec fn recorded(new: NewAction, id: i64, now: i64) -> Action {
    Action {
        id: Some(id),
        file_id: new.file_id,
        action: new.action,
        batch_id: new.batch_id,
        src_path: new.src_path,
        dst_path: new.dst_path,
        origin: new.origin,
        note: new.note,
        created_at: now,
    }
}

/// The action has the identifier `id`, is of kind `kind` on the file
/// `file_id` in the batch `batch`, leads from `src` to `dst`, was made by
/// `origin` at `now` and has no note.
pub open spec fn action_is(
    a: Action,
    id: i64,
    file_id: i64,
    kind: ActionType,
    batch: Seq<char>,
    src: Seq<char>,
    dst: Seq<char>,
    origin: Seq<char>,
    now: i64,
) -> bool {
    &&& a.id == Some(id)
    &&& a.file_id == file_id
    &&& a.action == kind
    &&& a.batch_id is Some && a.batch_id->0@ == batch
    &&& a.src_path is Some && a.src_path->0@ == src
    &&& a.dst_path is Some && a.dst_path->0@ == dst
    &&& a.origin is Some && a.origin->0@ == origin
    &&& a.note is None
    &&& a.created_at == now
}

/// The test for an action of the batch `batch`.
pub open spec fn in_batch(batch: Seq<char>) -> spec_fn(Action) -> bool {
    |a: Action| text_or_empty(a.batch_id) == batch
}

/// The test for an action on the file `file_id`.
pub open spec fn on_file(file_id: i64) -> spec_fn(Action) -> bool {
    |a: Action| a.file_id == file_id
}

/// The test for an action of kind `kind` made from `start` to `end`, both
/// included.
pub open spec fn of_kind_within(kind: ActionType, start: i64, end: i64) -> spec_fn(Action) -> bool {
    |a: Action| a.action == kind && start <= a.created_at <= end
}

/// For each action a key that lists earlier actions first.
pub open spec fn created_asc_keys(actions: Seq<Action>) -> Seq<Seq<int>> {
    Seq::new(actions.len(), |i: int| seq![actions[i].created_at as int])
}

/// The position of the latest of `actions`: the one made last, and among
/// those made at the same time the one recorded last.
pub open spec fn latest_index(actions: Seq<Action>) -> int
    decreases actions.len(),
{
    if actions.len() <= 1 {
        0
    } else {
        let k = latest_index(actions.drop_last());
        if actions.last().created_at >= actions[k].created_at {
            actions.len() - 1
        } else {
            k
        }
    }
}

/// The batch identifiers of `actions`, each once, in the order in which
/// they first occur.
pub open spec fn distinct_batches(actions: Seq<Action>) -> Seq<Seq<char>>
    decreases actions.len(),
{
    if actions.len() == 0 {
        Seq::empty()
    } else {
        let rest = distinct_batches(actions.drop_last());
        let b = text_or_empty(actions.last().batch_id);
        if rest.contains(b) {
            rest
        } else {
            rest.push(b)
        }
    }
}

/// A restore of the file of action `i` is recorded after action `i`.
pub open spec fn restored_later(actions: Seq<Action>, i: int) -> bool {
    exists|j: int|
        i < j < actions.len() && (#[trigger] actions[j]).action == ActionType::Restore
            && actions[j].file_id == actions[i].file_id
}

/// Action `i` is an archive or a delete of the batch `batch`.
pub open spec fn is_forward_member(actions: Seq<Action>, batch: Seq<char>, i: int) -> bool {
    0 <= i < actions.len() && text_or_empty(actions[i].batch_id) == batch && actions[i].action
        != ActionType::Restore
}

/// The batch can be undone: it holds an archive or a delete, and for none
/// of its archives and deletes a restore of the same file is recorded
/// later.
pub open spec fn is_undoable(actions: Seq<Action>, batch: Seq<char>) -> bool {
    &&& exists|i: int| is_forward_member(actions, batch, i)
    &&& forall|i: int| is_forward_member(actions, batch, i) ==> !restored_later(actions, i)
}

/// The test for a batch that can be undone.
pub open spec fn undoable_in(actions: Seq<Action>) -> spec_fn(Seq<char>) -> bool {
    |b: Seq<char>| is_undoable(actions, b)
}

/// When the batch was made: the earliest time of its actions.
pub open spec fn batch_created_at(actions: Seq<Action>, batch: Seq<char>) -> int
    decreases actions.len(),
{
    if actions.len() == 0 {
        i64::MAX as int
    } else {
        let rest = batch_created_at(actions.drop_last(), batch);
        let a = actions.last();
        if text_or_empty(a.batch_id) == batch && a.created_at < rest {
            a.created_at as int
        } else {
            rest
        }
    }
}

/// For each batch a key that lists newer batches first.
pub open spec fn batch_newest_first_keys(actions: Seq<Action>, batches: Seq<Seq<char>>) -> Seq<
    Seq<int>,
> {
    Seq::new(batches.len(), |i: int| seq![-batch_created_at(actions, batches[i])])
}

/// The batches that can be undone, newest first; batches made at the same
/// time in the order in which they first occur.
pub open spec fn undoable_batches(actions: Seq<Action>) -> Seq<Seq<char>> {
    let undoable = distinct_batches(actions).filter(undoable_in(actions));
    arranged(undoable, batch_newest_first_keys(actions, undoable))
}

/// The file entry that each of `actions` refers to, for those that refer
/// to one, in the order of the actions.
pub open spec fn files_of_actions(files: Seq<File>, actions: Seq<Action>) -> Seq<File>
    decreases actions.len(),
{
    if actions.len() == 0 {
        Seq::empty()
    } else {
        let rest = files_of_actions(files, actions.drop_last());
        let id = actions.last().file_id;
        if exists|i: int| 0 <= i < files.len() && (#[trigger] files[i]).id == Some(id) {
            rest.push(
                files[choose|i: int| 0 <= i < files.len() && (#[trigger] files[i]).id == Some(id)],
            )
        } else {
            rest
        }
    }
}

/// The staged record made for `e` under the identifier `id`.
pub open spec fn staged_record(e: NewStagedFile, id: i64) -> StagedFileRecord {
    StagedFileRecord {
        id,
        file_id: e.file_id,
        staged_at: e.staged_at,
        expires_at: e.expires_at,
        batch_id: e.batch_id,
        status: e.status,
        note: e.note,
    }
}

/// Some live entry of `files` has the identifier that `e` refers to.
pub open spec fn refers_to_live_file(files: Seq<File>, e: NewStagedFile) -> bool {
    exists|i: int|
        0 <= i < files.len() && (#[trigger] files[i]).id == Some(e.file_id) && !files[i].is_deleted
}

/// The expiry of `e`, where it has one, is not before its staging time.
pub open spec fn expiry_ok(e: NewStagedFile) -> bool {
    e.expires_at matches Some(x) ==> x >= e.staged_at
}

/// The entry can be staged.
pub open spec fn can_stage(files: Seq<File>, e: NewStagedFile) -> bool {
    refers_to_live_file(files, e) && expiry_ok(e)
}

/// File entries, staged slots and the next staged record identifier.
pub struct StagedState {
    pub files: Seq<File>,
    pub slots: Seq<Option<StagedFileRecord>>,
    pub next_id: int,
}

/// The state after `e` is staged: its file entry is marked staged with the
/// expiry of `e` as cool-off; the file's staged record is replaced, keeping
/// its identifier, or made under the next identifier.
pub open spec fn stage_one(st: StagedState, e: NewStagedFile) -> StagedState {
    let i = choose|i: int| 0 <= i < st.files.len() && (#[trigger] st.files[i]).id == Some(e.file_id);
    let id = if st.slots[i] is Some {
        st.slots[i]->0.id as int
    } else {
        st.next_id
    };
    StagedState {
        files: st.files.update(
            i,
            File { is_staged: true, cooloff_until: e.expires_at, ..st.files[i] },
        ),
        slots: st.slots.update(i, Some(staged_record(e, id as i64))),
        next_id: if st.slots[i] is Some {
            st.next_id
        } else {
            st.next_id + 1
        },
    }
}

/// The state after `entries` are staged one after the other.
pub open spec fn stage_all(st: StagedState, entries: Seq<NewStagedFile>) -> StagedState
    decreases entries.len(),
{
    if entries.len() == 0 {
        st
    } else {
        stage_one(stage_all(st, entries.drop_last()), entries.last())
    }
}

/// The slots with the status of the records of the files `ids` replaced by
/// `status`.
pub open spec fn with_status(
    files: Seq<File>,
    slots: Seq<Option<StagedFileRecord>>,
    ids: Seq<i64>,
    status: StagedStatus,
) -> Seq<Option<StagedFileRecord>> {
    Seq::new(
        slots.len(),
        |i: int|
            if slots[i] is Some && ids.contains(files[i].id->0) {
                Some(StagedFileRecord { status, ..slots[i]->0 })
            } else {
                slots[i]
            },
    )
}

/// The entries with those of the identifiers `ids` marked as not staged
/// and without cool-off.
pub open spec fn unstaged(files: Seq<File>, ids: Seq<i64>) -> Seq<File> {
    Seq::new(
        files.len(),
        |i: int|
            if ids.contains(files[i].id->0) {
                File { is_staged: false, cooloff_until: None, ..files[i] }
            } else {
                files[i]
            },
    )
}

/// The slots with those of the files `ids` emptied.
pub open spec fn unstaged_slots(
    files: Seq<File>,
    slots: Seq<Option<StagedFileRecord>>,
    ids: Seq<i64>,
) -> Seq<Option<StagedFileRecord>> {
    Seq::new(
        slots.len(),
        |i: int|
            if ids.contains(files[i].id->0) {
                None
            } else {
                slots[i]
            },
    )
}

/// The status passes the filter: there is none, or it lists the status.
pub open spec fn status_listed(filter: Option<Seq<StagedStatus>>, status: StagedStatus) -> bool {
    match filter {
        None => true,
        Some(listed) => listed.contains(status),
    }
}

/// The staged records whose status passes the filter, each with its file
/// entry, by ascending file identifier.
pub open spec fn staged_pairs(
    files: Seq<File>,
    slots: Seq<Option<StagedFileRecord>>,
    filter: Option<Seq<StagedStatus>>,
) -> Seq<(StagedFileRecord, File)>
    decreases files.len(),
{
    if files.len() == 0 || slots.len() == 0 {
        Seq::empty()
    } else {
        let rest = staged_pairs(files.drop_last(), slots.drop_last(), filter);
        if slots.last() is Some && status_listed(filter, slots.last()->0.status) {
            rest.push((slots.last()->0, files.last()))
        } else {
            rest
        }
    }
}

/// For each slot, whether it holds a record with status staged that was
/// staged from `start` to `end`, both included.
pub open spec fn staged_within_marks(
    slots: Seq<Option<StagedFileRecord>>,
    start: i64,
    end: i64,
) -> Seq<bool> {
    Seq::new(
        slots.len(),
        |i: int|
            slots[i] is Some && slots[i]->0.status == StagedStatus::Staged && start
                <= slots[i]->0.staged_at <= end,
    )
}

/// For each root a key that lists earlier registrations first.
pub open spec fn root_created_asc_keys(roots: Seq<WatchedRoot>) -> Seq<Seq<int>> {
    Seq::new(roots.len(), |i: int| seq![roots[i].created_at as int])
}

/// Some watched root has the path `path`.
pub open spec fn has_root(roots: Seq<WatchedRoot>, path: Seq<char>) -> bool {
    exists|i: int| 0 <= i < roots.len() && (#[trigger] roots[i]).path@ == path
}

/// The position of the watched root with the path `path`.
pub open spec fn index_of_root(roots: Seq<WatchedRoot>, path: Seq<char>) -> int {
    choose|i: int| 0 <= i < roots.len() && (#[trigger] roots[i]).path@ == path
}

/// The preferences as pairs of a key and a value.
pub open spec fn pref_views(prefs: Seq<Preference>) -> Seq<(Seq<char>, Seq<char>)> {
    Seq::new(prefs.len(), |i: int| (prefs[i].key@, prefs[i].value@))
}

/// The pairs with `key` set to `value`: the value of the pair with that
/// key is replaced; where there is none, a pair is appended.
pub open spec fn with_pref(
    pairs: Seq<(Seq<char>, Seq<char>)>,
    key: Seq<char>,
    value: Seq<char>,
) -> Seq<(Seq<char>, Seq<char>)> {
    if exists|i: int| 0 <= i < pairs.len() && (#[trigger] pairs[i]).0 == key {
        pairs.update(
            choose|i: int| 0 <= i < pairs.len() && (#[trigger] pairs[i]).0 == key,
            (key, value),
        )
    } else {
        pairs.push((key, value))
    }
}

/// The value that the pairs give to `key`, if they give one.
pub open spec fn pref_text(pairs: Seq<(Seq<char>, Seq<char>)>, key: Seq<char>) -> Option<Seq<char>> {
    if exists|i: int| 0 <= i < pairs.len() && (#[trigger] pairs[i]).0 == key {
        Some(pairs[choose|i: int| 0 <= i < pairs.len() && (#[trigger] pairs[i]).0 == key].1)
    } else {
        None
    }
}

/// Some preference has the key `key`.
pub open spec fn has_pref(prefs: Seq<Preference>, key: Seq<char>) -> bool {
    exists|i: int| 0 <= i < prefs.len() && (#[trigger] prefs[i]).key@ == key
}

/// The position of the preference with the key `key`.
pub open spec fn index_of_pref(prefs: Seq<Preference>, key: Seq<char>) -> int {
    choose|i: int| 0 <= i < prefs.len() && (#[trigger] prefs[i]).key@ == key
}

/// `member` is one of `files`, live, with the full digest `digest`.
pub open spec fn is_live_copy_with_digest(files: Seq<File>, digest: Seq<char>, member: File) -> bool {
    &&& files.contains(member)
    &&& !member.is_deleted
    &&& member.sha1 is Some
    &&& member.sha1->0@ == digest
}

/// The full digests of the live entries, each once, in the order in which
/// they first occur.
pub open spec fn distinct_digests(files: Seq<File>) -> Seq<Seq<char>>
    decreases files.len(),
{
    if files.len() == 0 {
        Seq::empty()
    } else {
        let rest = distinct_digests(files.drop_last());
        let f = files.last();
        if has_live_digest(f) && !rest.contains(f.sha1->0@) {
            rest.push(f.sha1->0@)
        } else {
            rest
        }
    }
}

/// The test for a digest that two or more live entries have.
pub open spec fn repeated_in(files: Seq<File>) -> spec_fn(Seq<char>) -> bool {
    |d: Seq<char>| digest_group(files, d).len() >= 2
}

/// For each digest a key that lists larger groups first.
pub open spec fn group_len_desc_keys(files: Seq<File>, digests: Seq<Seq<char>>) -> Seq<Seq<int>> {
    Seq::new(digests.len(), |i: int| seq![-(digest_group(files, digests[i]).len() as int)])
}

/// The digests of the duplicate groups: those that two or more live
/// entries have, larger groups first, groups of one size in the order in
/// which their digests first occur; at most `limit` of them where a limit
/// is given.
pub open spec fn duplicate_digests(files: Seq<File>, limit: Option<usize>) -> Seq<Seq<char>> {
    let repeated = distinct_digests(files).filter(repeated_in(files));
    let ordered = arranged(repeated, group_len_desc_keys(files, repeated));
    match limit {
        Some(n) => first_n(ordered, n as nat),
        None => ordered,
    }
}

/// The members of the duplicate group with the digest `digest`, largest
/// first, members of one size by ascending identifier.
pub open spec fn duplicate_members(files: Seq<File>, digest: Seq<char>) -> Seq<File> {
    arranged(digest_group(files, digest), size_desc_keys(digest_group(files, digest)))
}

/// For each entry a key that lists later sightings first.
pub open spec fn last_seen_desc_keys(files: Seq<File>) -> Seq<Seq<int>> {
    Seq::new(files.len(), |i: int| seq![-(files[i].last_seen_at as int)])
}

/// For each entry a key that lists larger files first.
pub open spec fn size_desc_keys(files: Seq<File>) -> Seq<Seq<int>> {
    Seq::new(files.len(), |i: int| seq![-(files[i].size_bytes as int)])
}

/// For each entry a key that lists larger files first and, among files of
/// one size, earlier sightings first.
pub open spec fn size_desc_seen_asc_keys(files: Seq<File>) -> Seq<Seq<int>> {
    Seq::new(
        files.len(),
        |i: int| seq![-(files[i].size_bytes as int), files[i].last_seen_at as int],
    )
}

/// The sum of the sizes of `files`, capped at the largest `u64`.
pub open spec fn total_size(files: Seq<File>) -> nat
    decreases files.len(),
{
    if files.len() == 0 {
        0
    } else {
        let sum = total_size(files.drop_last()) + files.last().size_bytes;
        if sum > u64::MAX {
            u64::MAX as nat
        } else {
            sum as nat
        }
    }
}

/// The entry with the digests replaced where new ones are given.
pub open spec fn with_hashes(f: File, partial_sha1: Option<String>, sha1: Option<String>) -> File {
    File {
        partial_sha1: if partial_sha1 is Some {
            partial_sha1
        } else {
            f.partial_sha1
        },
        sha1: if sha1 is Some {
            sha1
        } else {
            f.sha1
        },
        ..f
    }
}

/// Entry `b` is entry `a` moved to the path `path`.
pub open spec fn relocated(a: File, b: File, path: Seq<char>) -> bool {
    &&& b.path@ == path
    &&& b.parent_dir@ == parent_dir(path)
    &&& b.id == a.id
    &&& b.mime == a.mime
    &&& b.size_bytes == a.size_bytes
    &&& b.created_at == a.created_at
    &&& b.modified_at == a.modified_at
    &&& b.accessed_at == a.accessed_at
    &&& b.last_opened_at == a.last_opened_at
    &&& b.partial_sha1 == a.partial_sha1
    &&& b.sha1 == a.sha1
    &&& b.first_seen_at == a.first_seen_at
    &&& b.last_seen_at == a.last_seen_at
    &&& b.is_deleted == a.is_deleted
    &&& b.is_staged == a.is_staged
    &&& b.cooloff_until == a.cooloff_until
}

/// The entries after a reconciling scan of `root` that saw `seen`: every
/// missing entry is marked as gone, the others are as they were.
pub open spec fn reconciled(files: Seq<File>, root: Seq<char>, seen: Seq<Seq<char>>) -> Seq<File> {
    Seq::new(
        files.len(),
        |i: int|
            if is_missing(files[i], root, seen) {
                tombstoned(files[i])
            } else {
                files[i]
            },
    )
}

/// The staged slots after a reconciling scan of `root` that saw `seen`:
/// the slot of every missing entry is emptied.
pub open spec fn reconciled_slots(
    files: Seq<File>,
    slots: Seq<Option<StagedFileRecord>>,
    root: Seq<char>,
    seen: Seq<Seq<char>>,
) -> Seq<Option<StagedFileRecord>> {
    Seq::new(
        slots.len(),
        |i: int|
            if is_missing(files[i], root, seen) {
                None
            } else {
                slots[i]
            },
    )
}

/// The test for an entry whose path is not among `existing`.
pub open spec fn absent_from(existing: Seq<Seq<char>>) -> spec_fn(File) -> bool {
    |f: File| !existing.contains(f.path@)
}

/// The entries once every entry whose path is not among `existing` is
/// marked as gone.
pub open spec fn without_absent(files: Seq<File>, existing: Seq<Seq<char>>) -> Seq<File> {
    Seq::new(
        files.len(),
        |i: int|
            if existing.contains(files[i].path@) {
                files[i]
            } else {
                tombstoned(files[i])
            },
    )
}

/// The staged slots once every entry whose path is not among `existing`
/// is marked as gone: its slot is emptied.
pub open spec fn slots_without_absent(
    files: Seq<File>,
    slots: Seq<Option<StagedFileRecord>>,
    existing: Seq<Seq<char>>,
) -> Seq<Option<StagedFileRecord>> {
    Seq::new(
        slots.len(),
        |i: int|
            if existing.contains(files[i].path@) {
                slots[i]
            } else {
                None
            },
    )
}

/// One file entry and its staged slot are consistent in themselves.
pub open spec fn row_ok(
    f: File,
    slot: Option<StagedFileRecord>,
    next_file_id: i64,
    next_staged_id: i64,
) -> bool {
    &&& f.id is Some
    &&& 0 < f.id->0 < next_file_id
    &&& f.first_seen_at <= f.last_seen_at
    &&& f.is_deleted ==> !f.is_staged && f.cooloff_until is None
    &&& f.is_staged == (slot is Some)
    &&& slot matches Some(r) ==> {
        &&& r.file_id == f.id->0
        &&& 0 < r.id < next_staged_id
        &&& r.expires_at matches Some(e) ==> e >= r.staged_at
    }
}

/// The file entries with their staged slots are consistent: every row is,
/// identifiers ascend, no path occurs twice and no staged record identifier
/// occurs twice.
pub open spec fn files_ok(
    files: Seq<File>,
    slots: Seq<Option<StagedFileRecord>>,
    next_file_id: i64,
    next_staged_id: i64,
) -> bool {
    &&& slots.len() == files.len()
    &&& 0 < next_file_id
    &&& 0 < next_staged_id
    &&& forall|i: int|
        0 <= i < files.len() ==> row_ok(#[trigger] files[i], slots[i], next_file_id, next_staged_id)
    &&& forall|i: int, j: int|
        0 <= i < j < files.len() ==> (#[trigger] files[i]).id->0 < (#[trigger] files[j]).id->0
    &&& forall|i: int, j: int|
        0 <= i < j < files.len() ==> (#[trigger] files[i]).path@ != (#[trigger] files[j]).path@
    &&& forall|i: int, j: int|
        0 <= i < j < slots.len() && (#[trigger] slots[i]) is Some && (#[trigger] slots[j]) is Some
            ==> slots[i]->0.id != slots[j]->0.id
}

/// The action says what a record must say: it belongs to a batch; an
/// archive or a delete says where the file went; a restore says where the
/// file came from.
pub open spec fn action_complete(a: Action) -> bool {
    &&& a.batch_id is Some
    &&& a.action != ActionType::Restore ==> a.dst_path is Some && a.dst_path->0@.len() > 0
    &&& a.action == ActionType::Restore ==> a.src_path is Some && a.src_path->0@.len() > 0
}

/// The recorded actions are consistent: identifiers are given and ascend,
/// and every action says what a record must say.
pub open spec fn actions_ok(actions: Seq<Action>, next_action_id: i64) -> bool {
    &&& 0 < next_action_id
    &&& forall|i: int|
        0 <= i < actions.len() ==> (#[trigger] actions[i]).id is Some && 0 < actions[i].id->0
            < next_action_id
    &&& forall|i: int| 0 <= i < actions.len() ==> action_complete(#[trigger] actions[i])
    &&& forall|i: int, j: int|
        0 <= i < j < actions.len() ==> (#[trigger] actions[i]).id->0 < (#[trigger] actions[j]).id->0
}

/// The watched roots are consistent: identifiers ascend, no path twice.
pub open spec fn roots_ok(roots: Seq<WatchedRoot>, next_root_id: i64) -> bool {
    &&& 0 < next_root_id
    &&& forall|i: int| 0 <= i < roots.len() ==> 0 < (#[trigger] roots[i]).id < next_root_id
    &&& forall|i: int, j: int|
        0 <= i < j < roots.len() ==> (#[trigger] roots[i]).id < (#[trigger] roots[j]).id
    &&& forall|i: int, j: int|
        0 <= i < j < roots.len() ==> (#[trigger] roots[i]).path@ != (#[trigger] roots[j]).path@
}

/// No key occurs twice among the preferences.
pub open spec fn prefs_ok(prefs: Seq<Preference>) -> bool {
    forall|i: int, j: int|
        0 <= i < j < prefs.len() ==> (#[trigger] prefs[i]).key@ != (#[trigger] prefs[j]).key@
}

/// The catalog.
pub struct Database {
    files: Vec<File>,
    slots: Vec<Option<StagedFileRecord>>,
    actions: Vec<Action>,
    roots: Vec<WatchedRoot>,
    prefs: Vec<Preference>,
    next_file_id: i64,
    next_staged_id: i64,
    next_action_id: i64,
    next_root_id: i64,
}

impl Database {
    /// The file entries, by ascending identifier.
    pub closed spec fn files(&self) -> Seq<File> {
        self.files@
    }

    /// For each file entry, at the same position, its staged record if it
    /// has one.
    pub closed spec fn slots(&self) -> Seq<Option<StagedFileRecord>> {
        self.slots@
    }

    /// The recorded actions, in the order in which they were recorded.
    pub closed spec fn actions(&self) -> Seq<Action> {
        self.actions@
    }

    /// The watched roots, in the order in which they were registered.
    pub closed spec fn roots(&self) -> Seq<WatchedRoot> {
        self.roots@
    }

    /// The preferences.
    pub closed spec fn prefs(&self) -> Seq<Preference> {
        self.prefs@
    }

    /// The identifier that the next new file entry gets.
    pub closed spec fn next_file_id(&self) -> i64 {
        self.next_file_id
    }

    /// The identifier that the next new staged record gets.
    pub closed spec fn next_staged_id(&self) -> i64 {
        self.next_staged_id
    }

    /// The identifier that the next recorded action gets.
    pub closed spec fn next_action_id(&self) -> i64 {
        self.next_action_id
    }

    /// The identifier that the next new watched root gets.
    pub closed spec fn next_root_id(&self) -> i64 {
        self.next_root_id
    }

    /// The catalog is consistent.
    pub open spec fn wf(&self) -> bool {
        &&& files_ok(self.files(), self.slots(), self.next_file_id(), self.next_staged_id())
        &&& actions_ok(self.actions(), self.next_action_id())
        &&& roots_ok(self.roots(), self.next_root_id())
        &&& prefs_ok(self.prefs())
    }

    /// Everything but the file entries and staged slots is as in `other`.
    pub open spec fn same_log_and_settings(&self, other: &Database) -> bool {
        &&& self.actions() == other.actions()
        &&& self.next_action_id() == other.next_action_id()
        &&& self.roots() == other.roots()
        &&& self.next_root_id() == other.next_root_id()
        &&& self.prefs() == other.prefs()
    }

    /// The file entries, staged slots and their counters are as in `other`.
    pub open spec fn same_files(&self, other: &Database) -> bool {
        &&& self.files() == other.files()
        &&& self.slots() == other.slots()
        &&& self.next_file_id() == other.next_file_id()
        &&& self.next_staged_id() == other.next_staged_id()
    }

    /// Some file entry has the path `path`.
    pub open spec fn has_path(&self, path: Seq<char>) -> bool {
        exists|i: int| 0 <= i < self.files().len() && (#[trigger] self.files()[i]).path@ == path
    }

    /// The position of the file entry with the path `path`.
    pub open spec fn index_of_path(&self, path: Seq<char>) -> int {
        choose|i: int| 0 <= i < self.files().len() && (#[trigger] self.files()[i]).path@ == path
    }

    /// Some file entry has the identifier `id`.
    pub open spec fn has_id(&self, id: i64) -> bool {
        exists|i: int| 0 <= i < self.files().len() && (#[trigger] self.files()[i]).id == Some(id)
    }

    /// The position of the file entry with the identifier `id`.
    pub open spec fn index_of_id(&self, id: i64) -> int {
        choose|i: int| 0 <= i < self.files().len() && (#[trigger] self.files()[i]).id == Some(id)
    }

    /// An empty catalog.
    pub fn new() -> (db: Database)
        ensures
            db.wf(),
            db.files().len() == 0,
            db.slots().len() == 0,
            db.actions().len() == 0,
            db.roots().len() == 0,
            db.prefs().len() == 0,
            db.next_file_id() == 1,
            db.next_staged_id() == 1,
            db.next_action_id() == 1,
            db.next_root_id() == 1,
    {
        Database {
            files: Vec::new(),
            slots: Vec::new(),
            actions: Vec::new(),
            roots: Vec::new(),
            prefs: Vec::new(),
            next_file_id: 1,
            next_staged_id: 1,
            next_action_id: 1,
            next_root_id: 1,
        }
    }

    fn find_path(&self, path: &String) -> (found: Option<usize>)
        requires
            self.wf(),
        ensures
            match found {
                Some(i) => i < self.files().len() && self.files()[i as int].path@ == path@
                    && self.has_path(path@) && self.index_of_path(path@) == i,
                None => !self.has_path(path@),
            },
    {
        let mut i: usize = 0;
        while i < self.files.len()
            invariant
                self.wf(),
                i <= self.files.len(),
                forall|j: int| 0 <= j < i ==> (#[trigger] self.files@[j]).path@ != path@,
            decreases self.files.len() - i,
        {
            if self.files[i].path == *path {
                proof {
                    assert(self.files()[i as int].path@ == path@);
                    assert(self.has_path(path@));
                    let k = self.index_of_path(path@);
                    assert(0 <= k < self.files().len() && self.files()[k].path@ == path@);
                    if k < i {
                        assert(self.files()[k].path@ != self.files()[i as int].path@);
                    } else if k > i {
                        assert(self.files()[i as int].path@ != self.files()[k].path@);
                    }
                }
                return Some(i);
            }
            i = i + 1;
        }
        None
    }

    fn find_id(&self, id: i64) -> (found: Option<usize>)
        requires
            self.wf(),
        ensures
            match found {
                Some(i) => i < self.files().len() && self.files()[i as int].id == Some(id)
                    && self.has_id(id) && self.index_of_id(id) == i,
                None => !self.has_id(id),
            },
    {
        let mut i: usize = 0;
        while i < self.files.len()
            invariant
                self.wf(),
                i <= self.files.len(),
                forall|j: int| 0 <= j < i ==> (#[trigger] self.files@[j]).id != Some(id),
            decreases self.files.len() - i,
        {
            let hit = match self.files[i].id {
                Some(x) => x == id,
                None => false,
            };
            if hit {
                proof {
                    assert(self.files()[i as int].id == Some(id));
                    assert(self.has_id(id));
                    let k = self.index_of_id(id);
                    assert(0 <= k < self.files().len() && self.files()[k].id == Some(id));
                    if k < i {
                        assert(self.files()[k].id->0 < self.files()[i as int].id->0);
                    } else if k > i {
                        assert(self.files()[i as int].id->0 < self.files()[k].id->0);
                    }
                }
                return Some(i);
            }
            i = i + 1;
        }
        None
    }

    /// What `upsert_file` does to the catalog `pre`, giving `post` and
    /// `out`: an entry with the file's path is refreshed in place; else a
    /// new entry is appended under the next identifier, with an empty
    /// staged slot; else, no identifier being left, nothing changes.
    pub open spec fn upsert_post(
        pre: &Database,
        post: &Database,
        file: NewFile,
        now: i64,
        out: Result<i64, StoreError>,
    ) -> bool {
        &&& post.same_log_and_settings(pre)
        &&& post.next_staged_id() == pre.next_staged_id()
        &&& pre.has_path(file.path@) ==> {
            let i = pre.index_of_path(file.path@);
            &&& out == Ok::<i64, StoreError>(pre.files()[i].id->0)
            &&& post.files() == pre.files().update(i, refreshed(pre.files()[i], file, now))
            &&& post.slots() == pre.slots()
            &&& post.next_file_id() == pre.next_file_id()
        }
        &&& !pre.has_path(file.path@) && pre.next_file_id() < i64::MAX ==> {
            &&& out == Ok::<i64, StoreError>(pre.next_file_id())
            &&& post.files() == pre.files().push(created(file, pre.next_file_id(), now))
            &&& post.slots() == pre.slots().push(None)
            &&& post.next_file_id() == pre.next_file_id() + 1
        }
        &&& !pre.has_path(file.path@) && pre.next_file_id() == i64::MAX ==> {
            &&& out == Err::<i64, StoreError>(StoreError::IdsExhausted)
            &&& post.same_files(pre)
        }
    }

    /// Records what a scan observed of one file, at time `now`.
    ///
    /// An entry with that path is refreshed; otherwise a new entry is
    /// appended under the next identifier. Returns the entry's identifier.
    /// Fails, changing nothing, only where a new entry is due and no
    /// identifier is left.
    pub fn upsert_file(&mut self, file: &NewFile, now: i64) -> (out: Result<i64, StoreError>)
        requires
            old(self).wf(),
        ensures
            final(self).wf(),
            Self::upsert_post(old(self), final(self), *file, now, out),
    {
        match self.find_path(&file.path) {
            Some(i) => {
                let prev = &self.files[i];
                let id = match prev.id {
                    Some(x) => x,
                    None => 0,
                };
                let entry = File {
                    id: prev.id,
                    path: prev.path.clone(),
                    parent_dir: file.parent_dir.clone(),
                    mime: file.mime.duplicate(),
                    size_bytes: file.size_bytes,
                    created_at: prev.created_at,
                    modified_at: file.modified_at,
                    accessed_at: file.accessed_at,
                    last_opened_at: prev.last_opened_at,
                    partial_sha1: file.partial_sha1.duplicate(),
                    sha1: match &file.sha1 {
                        Some(d) => Some(d.clone()),
                        None => prev.sha1.duplicate(),
                    },
                    first_seen_at: prev.first_seen_at,
                    last_seen_at: if now > prev.last_seen_at {
                        now
                    } else {
                        prev.last_seen_at
                    },
                    is_deleted: false,
                    is_staged: prev.is_staged,
                    cooloff_until: prev.cooloff_until,
                };
                assert(entry == refreshed(self.files()[i as int], *file, now));
                self.files.set(i, entry);
                proof {
                    let before = old(self).files();
                    let after = self.files();
                    assert forall|a: int|
                        0 <= a < after.len() implies row_ok(
                        #[trigger] after[a],
                        self.slots()[a],
                        self.next_file_id(),
                        self.next_staged_id(),
                    ) by {
                        assert(row_ok(
                            before[a],
                            old(self).slots()[a],
                            self.next_file_id(),
                            self.next_staged_id(),
                        ));
                    }
                    assert forall|a: int, b: int| 0 <= a < b < after.len() implies (
                    #[trigger] after[a]).id->0 < (#[trigger] after[b]).id->0 && after[a].path@
                        != after[b].path@ by {
                        assert(before[a].id->0 < before[b].id->0);
                        assert(before[a].path@ != before[b].path@);
                    }
                }
                Ok(id)
            },
            None => {
                if self.next_file_id == i64::MAX {
                    return Err(StoreError::IdsExhausted);
                }
                let id = self.next_file_id;
                let entry = File {
                    id: Some(id),
                    path: file.path.clone(),
                    parent_dir: file.parent_dir.clone(),
                    mime: file.mime.duplicate(),
                    size_bytes: file.size_bytes,
                    created_at: match file.created_at {
                        Some(t) => t,
                        None => now,
                    },
                    modified_at: file.modified_at,
                    accessed_at: file.accessed_at,
                    last_opened_at: None,
                    partial_sha1: file.partial_sha1.duplicate(),
                    sha1: file.sha1.duplicate(),
                    first_seen_at: now,
                    last_seen_at: now,
                    is_deleted: false,
                    is_staged: false,
                    cooloff_until: None,
                };
                assert(entry == created(*file, id, now));
                self.files.push(entry);
                self.slots.push(None);
                self.next_file_id = id + 1;
                proof {
                    let before = old(self).files();
                    let after = self.files();
                    assert forall|a: int|
                        0 <= a < after.len() implies row_ok(
                        #[trigger] after[a],
                        self.slots()[a],
                        self.next_file_id(),
                        self.next_staged_id(),
                    ) by {
                        if a < before.len() {
                            assert(row_ok(
                                before[a],
                                old(self).slots()[a],
                                old(self).next_file_id(),
                                self.next_staged_id(),
                            ));
                        }
                    }
                    assert forall|a: int, b: int| 0 <= a < b < after.len() implies (
                    #[trigger] after[a]).id->0 < (#[trigger] after[b]).id->0 && after[a].path@
                        != after[b].path@ by {
                        if b < before.len() {
                            assert(before[a].id->0 < before[b].id->0);
                            assert(before[a].path@ != before[b].path@);
                        } else {
                            assert(row_ok(
                                before[a],
                                old(self).slots()[a],
                                old(self).next_file_id(),
                                self.next_staged_id(),
                            ));
                            assert(before[a].path@ != file.path@);
                        }
                    }
                    assert forall|a: int, b: int|
                        0 <= a < b < self.slots().len() && (#[trigger] self.slots()[a]) is Some && (
                        #[trigger] self.slots()[b]) is Some implies self.slots()[a]->0.id
                        != self.slots()[b]->0.id by {
                        assert(old(self).slots()[a] is Some && old(self).slots()[b] is Some);
                    }
                }
                Ok(id)
            },
        }
    }
}

impl Database {
    /// Replaces the digests of the entry `file_id` where new ones are
    /// given. Does nothing where there is no such entry.
    pub fn update_file_hashes(
        &mut self,
        file_id: i64,
        partial_sha1: &Option<String>,
        sha1: &Option<String>,
    )
        requires
            old(self).wf(),
        ensures
            final(self).wf(),
            final(self).same_log_and_settings(old(self)),
            final(self).slots() == old(self).slots(),
            final(self).next_file_id() == old(self).next_file_id(),
            final(self).next_staged_id() == old(self).next_staged_id(),
            old(self).has_id(file_id) ==> final(self).files() == old(self).files().update(
                old(self).index_of_id(file_id),
                with_hashes(
                    old(self).files()[old(self).index_of_id(file_id)],
                    *partial_sha1,
                    *sha1,
                ),
            ),
            !old(self).has_id(file_id) ==> final(self).files() == old(self).files(),
    {
        match self.find_id(file_id) {
            Some(i) => {
                let prev = &self.files[i];
                let mut entry = prev.duplicate();
                if partial_sha1.is_some() {
                    entry.partial_sha1 = partial_sha1.duplicate();
                }
                if sha1.is_some() {
                    entry.sha1 = sha1.duplicate();
                }
                assert(entry == with_hashes(self.files()[i as int], *partial_sha1, *sha1));
                self.files.set(i, entry);
                proof {
                    self.lemma_row_change_keeps_wf(old(self), i as int);
                }
            },
            None => {},
        }
    }

    /// Replacing one entry by one with the same identifier, path, sighting
    /// times and flags keeps the catalog consistent.
    proof fn lemma_row_change_keeps_wf(&self, before: &Database, i: int)
        requires
            before.wf(),
            0 <= i < before.files().len(),
            self.files().len() == before.files().len(),
            forall|k: int| 0 <= k < self.files().len() && k != i ==> self.files()[k] == before.files()[k],
            self.files()[i].id == before.files()[i].id,
            self.files()[i].path@ == before.files()[i].path@,
            self.files()[i].first_seen_at == before.files()[i].first_seen_at,
            self.files()[i].last_seen_at == before.files()[i].last_seen_at,
            self.files()[i].is_deleted == before.files()[i].is_deleted,
            self.files()[i].is_staged == before.files()[i].is_staged,
            self.files()[i].cooloff_until == before.files()[i].cooloff_until,
            self.slots() == before.slots(),
            self.next_file_id() == before.next_file_id(),
            self.next_staged_id() == before.next_staged_id(),
            self.same_log_and_settings(before),
        ensures
            self.wf(),
    {
        let b = before.files();
        let a = self.files();
        assert forall|k: int| 0 <= k < a.len() implies row_ok(
            #[trigger] a[k],
            self.slots()[k],
            self.next_file_id(),
            self.next_staged_id(),
        ) by {
            assert(row_ok(b[k], before.slots()[k], self.next_file_id(), self.next_staged_id()));
        }
        assert forall|x: int, y: int| 0 <= x < y < a.len() implies (#[trigger] a[x]).id->0 < (
        #[trigger] a[y]).id->0 && a[x].path@ != a[y].path@ by {
            assert(b[x].id->0 < b[y].id->0);
            assert(b[x].path@ != b[y].path@);
        }
    }

    /// The entry with the identifier `id`, if there is one.
    pub fn get_file_by_id(&self, id: i64) -> (out: Option<File>)
        requires
            self.wf(),
        ensures
            self.has_id(id) ==> out == Some(self.files()[self.index_of_id(id)]),
            !self.has_id(id) ==> out is None,
    {
        match self.find_id(id) {
            Some(i) => Some(self.files[i].duplicate()),
            None => None,
        }
    }

    /// The identifier of the entry with the path `path`, if there is one.
    pub fn get_file_id_by_path(&self, path: &str) -> (out: Option<i64>)
        requires
            self.wf(),
        ensures
            self.has_path(path@) ==> out == self.files()[self.index_of_path(path@)].id,
            !self.has_path(path@) ==> out is None,
    {
        let wanted = String::from_str(path);
        match self.find_path(&wanted) {
            Some(i) => self.files[i].id,
            None => None,
        }
    }

    fn live_mask(&self) -> (mask: Vec<bool>)
        ensures
            mask@.len() == self.files().len(),
            forall|i: int| 0 <= i < mask@.len() ==> mask@[i] == !(#[trigger] self.files()[i]).is_deleted,
    {
        let mut mask: Vec<bool> = Vec::new();
        let mut i: usize = 0;
        while i < self.files.len()
            invariant
                i <= self.files.len(),
                mask@.len() == i,
                forall|j: int| 0 <= j < i ==> mask@[j] == !(#[trigger] self.files@[j]).is_deleted,
            decreases self.files.len() - i,
        {
            mask.push(!self.files[i].is_deleted);
            i = i + 1;
        }
        mask
    }

    /// The live entries, latest sighting first; entries seen at the same
    /// time by ascending identifier.
    pub fn get_all_active_files(&self) -> (out: Vec<File>)
        requires
            self.wf(),
        ensures
            out@ == arranged(
                self.files().filter(live()),
                last_seen_desc_keys(self.files().filter(live())),
            ),
    {
        let mask = self.live_mask();
        let sel = pick_by_mask(&self.files, &mask);
        proof {
            lemma_masked_is_filter(self.files(), mask@, live());
        }
        let mut keys: Vec<Vec<i128>> = Vec::new();
        let mut i: usize = 0;
        while i < sel.len()
            invariant
                i <= sel.len(),
                keys@.len() == i,
                forall|j: int|
                    0 <= j < i ==> crate::order::ints((#[trigger] keys@[j])@) == seq![
                        -(sel@[j].last_seen_at as int),
                    ],
            decreases sel.len() - i,
        {
            keys.push(key1(-(sel[i].last_seen_at as i128)));
            i = i + 1;
        }
        assert(key_views(keys@) =~= last_seen_desc_keys(sel@));
        arrange(&sel, &keys)
    }

    /// The live entries whose parent directory is `parent_dir`, by
    /// ascending identifier.
    pub fn by_dir(&self, parent_dir: &str) -> (out: Vec<File>)
        requires
            self.wf(),
        ensures
            out@ == self.files().filter(live_in_dir(parent_dir@)),
    {
        let wanted = String::from_str(parent_dir);
        let mut mask: Vec<bool> = Vec::new();
        let mut i: usize = 0;
        while i < self.files.len()
            invariant
                i <= self.files.len(),
                mask@.len() == i,
                wanted@ == parent_dir@,
                forall|j: int|
                    0 <= j < i ==> mask@[j] == live_in_dir(parent_dir@)(#[trigger] self.files@[j]),
            decreases self.files.len() - i,
        {
            let f = &self.files[i];
            mask.push(!f.is_deleted && f.parent_dir == wanted);
            i = i + 1;
        }
        let sel = pick_by_mask(&self.files, &mask);
        proof {
            lemma_masked_is_filter(self.files(), mask@, live_in_dir(parent_dir@));
        }
        sel
    }

    /// The sum of the sizes of the live entries, capped at the largest
    /// `u64`.
    pub fn get_total_file_size(&self) -> (sum: u64)
        requires
            self.wf(),
        ensures
            sum == total_size(self.files().filter(live())),
    {
        let mask = self.live_mask();
        let sel = pick_by_mask(&self.files, &mask);
        proof {
            lemma_masked_is_filter(self.files(), mask@, live());
        }
        sum_sizes(&sel)
    }

    /// The `limit` largest live entries, largest first; among entries of
    /// one size the one seen longest ago first.
    pub fn get_candidate_files(&self, limit: usize) -> (out: Vec<File>)
        requires
            self.wf(),
        ensures
            out@ == first_n(
                arranged(
                    self.files().filter(live()),
                    size_desc_seen_asc_keys(self.files().filter(live())),
                ),
                limit as nat,
            ),
    {
        let mask = self.live_mask();
        let sel = pick_by_mask(&self.files, &mask);
        proof {
            lemma_masked_is_filter(self.files(), mask@, live());
        }
        let mut keys: Vec<Vec<i128>> = Vec::new();
        let mut i: usize = 0;
        while i < sel.len()
            invariant
                i <= sel.len(),
                keys@.len() == i,
                forall|j: int|
                    0 <= j < i ==> crate::order::ints((#[trigger] keys@[j])@) == seq![
                        -(sel@[j].size_bytes as int),
                        sel@[j].last_seen_at as int,
                    ],
            decreases sel.len() - i,
        {
            keys.push(key2(-(sel[i].size_bytes as i128), sel[i].last_seen_at as i128));
            i = i + 1;
        }
        assert(key_views(keys@) =~= size_desc_seen_asc_keys(sel@));
        let mut out = arrange(&sel, &keys);
        if limit < out.len() {
            out.truncate(limit);
        }
        out
    }

    /// Records that the entry `file_id` now lies at `new_path`.
    ///
    /// Does nothing where there is no such entry. Fails, changing nothing,
    /// where another entry has that path.
    pub fn update_file_location(&mut self, file_id: i64, new_path: &str) -> (out: Result<
        (),
        StoreError,
    >)
        requires
            old(self).wf(),
        ensures
            final(self).wf(),
            final(self).same_log_and_settings(old(self)),
            final(self).slots() == old(self).slots(),
            final(self).next_file_id() == old(self).next_file_id(),
            final(self).next_staged_id() == old(self).next_staged_id(),
            final(self).files().len() == old(self).files().len(),
            out is Err <==> old(self).has_id(file_id) && old(self).has_path(new_path@) && old(
                self,
            ).index_of_path(new_path@) != old(self).index_of_id(file_id),
            out is Err ==> out == Err::<(), StoreError>(StoreError::UniqueViolation)
                && final(self).files() == old(self).files(),
            !old(self).has_id(file_id) ==> final(self).files() == old(self).files(),
            out is Ok && old(self).has_id(file_id) ==> {
                let i = old(self).index_of_id(file_id);
                &&& relocated(old(self).files()[i], final(self).files()[i], new_path@)
                &&& forall|k: int|
                    0 <= k < old(self).files().len() && k != i ==> final(self).files()[k] == old(
                        self,
                    ).files()[k]
            },
    {
        let i = match self.find_id(file_id) {
            Some(i) => i,
            None => {
                return Ok(());
            },
        };
        let wanted = String::from_str(new_path);
        match self.find_path(&wanted) {
            Some(j) => {
                if j != i {
                    return Err(StoreError::UniqueViolation);
                }
            },
            None => {},
        }
        let mut entry = self.files[i].duplicate();
        entry.path = wanted;
        entry.parent_dir = parent_dir_of(new_path);
        self.files.set(i, entry);
        proof {
            let b = old(self).files();
            let a = self.files();
            assert forall|k: int| 0 <= k < a.len() implies row_ok(
                #[trigger] a[k],
                self.slots()[k],
                self.next_file_id(),
                self.next_staged_id(),
            ) by {
                assert(row_ok(b[k], old(self).slots()[k], self.next_file_id(), self.next_staged_id()));
            }
            assert forall|x: int, y: int| 0 <= x < y < a.len() implies (#[trigger] a[x]).id->0 < (
            #[trigger] a[y]).id->0 && a[x].path@ != a[y].path@ by {
                assert(b[x].id->0 < b[y].id->0);
                assert(b[x].path@ != b[y].path@);
                if x == i as int {
                    if b[y].path@ == new_path@ {
                        assert(old(self).has_path(new_path@));
                    }
                } else if y == i as int {
                    if b[x].path@ == new_path@ {
                        assert(old(self).has_path(new_path@));
                    }
                }
            }
        }
        Ok(())
    }

    /// Reconciles the catalog with a scan of `root` that saw `seen_paths`.
    ///
    /// Every live entry whose path lies under `root` and was not seen is
    /// marked as gone: deleted, not staged, without cool-off, its staged
    /// record removed. All other entries stay as they are.
    pub fn mark_missing_for_root(&mut self, root: &str, seen_paths: &Vec<String>)
        requires
            old(self).wf(),
        ensures
            final(self).wf(),
            final(self).same_log_and_settings(old(self)),
            final(self).next_file_id() == old(self).next_file_id(),
            final(self).next_staged_id() == old(self).next_staged_id(),
            final(self).files() == reconciled(
                old(self).files(),
                root@,
                string_views(seen_paths@),
            ),
            final(self).slots() == reconciled_slots(
                old(self).files(),
                old(self).slots(),
                root@,
                string_views(seen_paths@),
            ),
    {
        let root_chars = chars_of(root);
        let prefix = root_prefix_chars(&root_chars);
        let ghost seen = string_views(seen_paths@);
        let mut i: usize = 0;
        while i < self.files.len()
            invariant
                i <= self.files.len(),
                old(self).wf(),
                prefix@ == crate::paths::root_prefix(root@),
                seen == string_views(seen_paths@),
                self.files@.len() == old(self).files().len(),
                self.slots@.len() == old(self).slots().len(),
                self.same_log_and_settings(old(self)),
                self.next_file_id() == old(self).next_file_id(),
                self.next_staged_id() == old(self).next_staged_id(),
                forall|k: int|
                    0 <= k < i ==> self.files@[k] == reconciled(old(self).files(), root@, seen)[k]
                        && self.slots@[k] == reconciled_slots(
                        old(self).files(),
                        old(self).slots(),
                        root@,
                        seen,
                    )[k],
                forall|k: int|
                    i <= k < self.files@.len() ==> self.files@[k] == old(self).files()[k]
                        && self.slots@[k] == old(self).slots()[k],
            decreases self.files.len() - i,
        {
            let f = &self.files[i];
            let mut missing = false;
            if !f.is_deleted {
                let path_chars = chars_of(f.path.as_str());
                if starts_with(&path_chars, &prefix) {
                    missing = !contains_text(seen_paths, &f.path);
                }
            }
            if missing {
                let mut entry = f.duplicate();
                entry.is_deleted = true;
                entry.is_staged = false;
                entry.cooloff_until = None;
                self.files.set(i, entry);
                self.slots.set(i, None);
            }
            i = i + 1;
        }
        proof {
            let b = old(self).files();
            let a = self.files();
            assert(a =~= reconciled(b, root@, seen));
            assert(self.slots() =~= reconciled_slots(b, old(self).slots(), root@, seen));
            assert forall|k: int| 0 <= k < a.len() implies row_ok(
                #[trigger] a[k],
                self.slots()[k],
                self.next_file_id(),
                self.next_staged_id(),
            ) by {
                assert(row_ok(b[k], old(self).slots()[k], self.next_file_id(), self.next_staged_id()));
            }
            assert forall|x: int, y: int| 0 <= x < y < a.len() implies (#[trigger] a[x]).id->0 < (
            #[trigger] a[y]).id->0 && a[x].path@ != a[y].path@ by {
                assert(b[x].id->0 < b[y].id->0);
                assert(b[x].path@ != b[y].path@);
            }
            assert forall|x: int, y: int|
                0 <= x < y < self.slots().len() && (#[trigger] self.slots()[x]) is Some && (
                #[trigger] self.slots()[y]) is Some implies self.slots()[x]->0.id
                != self.slots()[y]->0.id by {
                assert(old(self).slots()[x] is Some && old(self).slots()[y] is Some);
            }
        }
    }

    /// Marks every entry as gone whose path is not among `existing_paths`:
    /// deleted, not staged, without cool-off, its staged record removed.
    /// Returns how many entries have such a path, whether or not they were
    /// marked before.
    pub fn mark_missing_as_deleted(&mut self, existing_paths: &Vec<String>) -> (out: u64)
        requires
            old(self).wf(),
        ensures
            final(self).wf(),
            final(self).same_log_and_settings(old(self)),
            final(self).next_file_id() == old(self).next_file_id(),
            final(self).next_staged_id() == old(self).next_staged_id(),
            final(self).files() == without_absent(old(self).files(), string_views(existing_paths@)),
            final(self).slots() == slots_without_absent(
                old(self).files(),
                old(self).slots(),
                string_views(existing_paths@),
            ),
            out == old(self).files().filter(absent_from(string_views(existing_paths@))).len(),
    {
        let ghost existing = string_views(existing_paths@);
        let mut count: u64 = 0;
        let mut i: usize = 0;
        proof {
            reveal(Seq::filter);
            assert(old(self).files().take(0).filter(absent_from(existing)) =~= Seq::<File>::empty());
        }
        while i < self.files.len()
            invariant
                i <= self.files.len(),
                old(self).wf(),
                existing == string_views(existing_paths@),
                self.files@.len() == old(self).files().len(),
                self.slots@.len() == old(self).slots().len(),
                self.same_log_and_settings(old(self)),
                self.next_file_id() == old(self).next_file_id(),
                self.next_staged_id() == old(self).next_staged_id(),
                count == old(self).files().take(i as int).filter(absent_from(existing)).len(),
                count <= i,
                forall|k: int|
                    0 <= k < i ==> self.files@[k] == without_absent(old(self).files(), existing)[k]
                        && self.slots@[k] == slots_without_absent(
                        old(self).files(),
                        old(self).slots(),
                        existing,
                    )[k],
                forall|k: int|
                    i <= k < self.files@.len() ==> self.files@[k] == old(self).files()[k]
                        && self.slots@[k] == old(self).slots()[k],
            decreases self.files.len() - i,
        {
            proof {
                let b = old(self).files();
                assert(b.take(i + 1) == b.take(i as int).push(b[i as int]));
                b.take(i as int).lemma_filter_push(b[i as int], absent_from(existing));
            }
            let f = &self.files[i];
            if !contains_text(existing_paths, &f.path) {
                let mut entry = f.duplicate();
                entry.is_deleted = true;
                entry.is_staged = false;
                entry.cooloff_until = None;
                self.files.set(i, entry);
                self.slots.set(i, None);
                count = count + 1;
            }
            i = i + 1;
        }
        proof {
            let b = old(self).files();
            let a = self.files();
            assert(b.take(b.len() as int) == b);
            assert(a =~= without_absent(b, existing));
            assert(self.slots() =~= slots_without_absent(b, old(self).slots(), existing));
            assert forall|k: int| 0 <= k < a.len() implies row_ok(
                #[trigger] a[k],
                self.slots()[k],
                self.next_file_id(),
                self.next_staged_id(),
            ) by {
                assert(row_ok(b[k], old(self).slots()[k], self.next_file_id(), self.next_staged_id()));
            }
            assert forall|x: int, y: int| 0 <= x < y < a.len() implies (#[trigger] a[x]).id->0 < (
            #[trigger] a[y]).id->0 && a[x].path@ != a[y].path@ by {
                assert(b[x].id->0 < b[y].id->0);
                assert(b[x].path@ != b[y].path@);
            }
            assert forall|x: int, y: int|
                0 <= x < y < self.slots().len() && (#[trigger] self.slots()[x]) is Some && (
                #[trigger] self.slots()[y]) is Some implies self.slots()[x]->0.id
                != self.slots()[y]->0.id by {
                assert(old(self).slots()[x] is Some && old(self).slots()[y] is Some);
            }
        }
        count
    }
}

/// Whether one of `items` has the text of `wanted`.
pub fn contains_text(items: &Vec<String>, wanted: &String) -> (r: bool)
    ensures
        r == string_views(items@).contains(wanted@),
{
    let mut i: usize = 0;
    while i < items.len()
        invariant
            i <= items.len(),
            forall|j: int| 0 <= j < i ==> (#[trigger] items@[j])@ != wanted@,
        decreases items.len() - i,
    {
        if items[i] == *wanted {
            assert(string_views(items@)[i as int] == wanted@);
            return true;
        }
        i = i + 1;
    }
    proof {
        let views = string_views(items@);
        if views.contains(wanted@) {
            let k = choose|k: int| 0 <= k < views.len() && views[k] == wanted@;
            assert(items@[k]@ == wanted@);
        }
    }
    false
}

/// The sum of the sizes of `files`, capped at the largest `u64`.
pub fn sum_sizes(files: &Vec<File>) -> (sum: u64)
    ensures
        sum == total_size(files@),
{
    let mut sum: u64 = 0;
    let mut i: usize = 0;
    while i < files.len()
        invariant
            i <= files.len(),
            sum == total_size(files@.take(i as int)),
        decreases files.len() - i,
    {
        proof {
            assert(files@.take(i + 1).drop_last() == files@.take(i as int));
            assert(files@.take(i + 1).last() == files@[i as int]);
        }
        sum = sum.saturating_add(files[i].size_bytes);
        i = i + 1;
    }
    assert(files@.take(files@.len() as int) == files@);
    sum
}

impl Database {
    fn group_of(&self, digest: &String) -> (out: Vec<File>)
        ensures
            out@ == digest_group(self.files(), digest@),
    {
        let mut mask: Vec<bool> = Vec::new();
        let mut i: usize = 0;
        while i < self.files.len()
            invariant
                i <= self.files.len(),
                mask@.len() == i,
                forall|j: int|
                    0 <= j < i ==> mask@[j] == live_with_digest(digest@)(#[trigger] self.files@[j]),
            decreases self.files.len() - i,
        {
            let f = &self.files[i];
            let hit = !f.is_deleted && match &f.sha1 {
                Some(d) => d.as_str().unicode_len() > 0 && *d == *digest,
                None => false,
            };
            mask.push(hit);
            i = i + 1;
        }
        let out = pick_by_mask(&self.files, &mask);
        proof {
            lemma_masked_is_filter(self.files(), mask@, live_with_digest(digest@));
        }
        out
    }

    fn collect_digests(&self) -> (out: Vec<String>)
        ensures
            string_views(out@) == distinct_digests(self.files()),
    {
        let mut out: Vec<String> = Vec::new();
        let mut i: usize = 0;
        assert(string_views(out@) =~= distinct_digests(self.files@.take(0)));
        while i < self.files.len()
            invariant
                i <= self.files.len(),
                string_views(out@) == distinct_digests(self.files@.take(i as int)),
            decreases self.files.len() - i,
        {
            proof {
                assert(self.files@.take(i + 1).drop_last() == self.files@.take(i as int));
                assert(self.files@.take(i + 1).last() == self.files@[i as int]);
            }
            let f = &self.files[i];
            if !f.is_deleted {
                match &f.sha1 {
                    Some(d) => {
                        if d.as_str().unicode_len() > 0 && !contains_text(&out, d) {
                            let ghost before = string_views(out@);
                            out.push(d.clone());
                            assert(string_views(out@) =~= before.push(d@));
                        }
                    },
                    None => {},
                }
            }
            i = i + 1;
        }
        assert(self.files@.take(self.files@.len() as int) == self.files@);
        out
    }

    /// The groups of live entries that share a full digest.
    ///
    /// A group is listed with its digest where it has two or more members;
    /// larger groups come first, and at most `limit` groups are listed. The
    /// members of a group are listed largest first. Every member of a
    /// listed group is live and has the group's digest.
    pub fn duplicate_groups(&self, limit: Option<usize>) -> (out: Vec<(String, Vec<File>)>)
        requires
            self.wf(),
        ensures
            out@.len() == duplicate_digests(self.files(), limit).len(),
            forall|k: int|
                0 <= k < out@.len() ==> (#[trigger] out@[k]).0@ == duplicate_digests(
                    self.files(),
                    limit,
                )[k] && out@[k].1@ == duplicate_members(self.files(), out@[k].0@),
            forall|k: int| 0 <= k < out@.len() ==> (#[trigger] out@[k]).1@.len() >= 2,
            forall|k: int, m: int|
                0 <= k < out@.len() && 0 <= m < out@[k].1@.len() ==> is_live_copy_with_digest(
                    self.files(),
                    out@[k].0@,
                    #[trigger] out@[k].1@[m],
                ),
    {
        let digests = self.collect_digests();
        let ghost all = distinct_digests(self.files());
        let mut mask: Vec<bool> = Vec::new();
        let mut i: usize = 0;
        while i < digests.len()
            invariant
                i <= digests.len(),
                mask@.len() == i,
                string_views(digests@) == all,
                forall|j: int|
                    0 <= j < i ==> mask@[j] == repeated_in(self.files())(#[trigger] all[j]),
            decreases digests.len() - i,
        {
            let group = self.group_of(&digests[i]);
            assert(string_views(digests@)[i as int] == digests@[i as int]@);
            mask.push(group.len() >= 2);
            i = i + 1;
        }
        let kept = pick_by_mask(&digests, &mask);
        let ghost repeated = all.filter(repeated_in(self.files()));
        proof {
            lemma_masked_views(digests@, mask@);
            lemma_masked_is_filter(all, mask@, repeated_in(self.files()));
            assert(string_views(kept@) == repeated);
        }
        let mut keys: Vec<Vec<i128>> = Vec::new();
        let mut i: usize = 0;
        while i < kept.len()
            invariant
                i <= kept.len(),
                keys@.len() == i,
                string_views(kept@) == repeated,
                forall|j: int|
                    0 <= j < i ==> crate::order::ints((#[trigger] keys@[j])@) == seq![
                        -(digest_group(self.files(), repeated[j]).len() as int),
                    ],
            decreases kept.len() - i,
        {
            let group = self.group_of(&kept[i]);
            assert(string_views(kept@)[i as int] == kept@[i as int]@);
            keys.push(key1(-(group.len() as i128)));
            i = i + 1;
        }
        let ghost kv = group_len_desc_keys(self.files(), repeated);
        assert(key_views(keys@) =~= kv);
        let mut ordered = arrange(&kept, &keys);
        proof {
            assert(string_views(ordered@) =~= arranged(repeated, kv));
            crate::seqs::lemma_arranged_same_items(repeated, kv);
        }
        match limit {
            Some(n) => {
                if n < ordered.len() {
                    ordered.truncate(n);
                }
            },
            None => {},
        }
        let ghost listed = duplicate_digests(self.files(), limit);
        proof {
            assert(string_views(ordered@) =~= listed);
            assert forall|k: int| 0 <= k < listed.len() implies repeated.contains(
                #[trigger] listed[k],
            ) by {
                assert(listed[k] == arranged(repeated, kv)[k]);
            }
        }
        let mut out: Vec<(String, Vec<File>)> = Vec::new();
        let mut i: usize = 0;
        while i < ordered.len()
            invariant
                i <= ordered.len(),
                out@.len() == i,
                string_views(ordered@) == listed,
                repeated == distinct_digests(self.files()).filter(repeated_in(self.files())),
                forall|k: int| 0 <= k < listed.len() ==> repeated.contains(#[trigger] listed[k]),
                forall|k: int|
                    0 <= k < i ==> (#[trigger] out@[k]).0@ == listed[k] && out@[k].1@
                        == duplicate_members(self.files(), out@[k].0@),
                forall|k: int| 0 <= k < i ==> (#[trigger] out@[k]).1@.len() >= 2,
                forall|k: int, m: int|
                    0 <= k < i && 0 <= m < out@[k].1@.len() ==> is_live_copy_with_digest(
                        self.files(),
                        out@[k].0@,
                        #[trigger] out@[k].1@[m],
                    ),
            decreases ordered.len() - i,
        {
            let digest = ordered[i].clone();
            assert(string_views(ordered@)[i as int] == digest@);
            let group = self.group_of(&digest);
            let mut keys: Vec<Vec<i128>> = Vec::new();
            let mut j: usize = 0;
            while j < group.len()
                invariant
                    j <= group.len(),
                    keys@.len() == j,
                    forall|x: int|
                        0 <= x < j ==> crate::order::ints((#[trigger] keys@[x])@) == seq![
                            -(group@[x].size_bytes as int),
                        ],
                decreases group.len() - j,
            {
                keys.push(key1(-(group[j].size_bytes as i128)));
                j = j + 1;
            }
            assert(key_views(keys@) =~= size_desc_keys(group@));
            let members = arrange(&group, &keys);
            proof {
                let d = digest@;
                let g = digest_group(self.files(), d);
                crate::seqs::lemma_arranged_same_items(g, size_desc_keys(g));
                assert(repeated.contains(d));
                let at = choose|at: int| 0 <= at < repeated.len() && repeated[at] == d;
                distinct_digests(self.files()).lemma_filter_pred(repeated_in(self.files()), at);
                assert(g.len() >= 2);
                assert forall|m: int| 0 <= m < members@.len() implies is_live_copy_with_digest(
                    self.files(),
                    d,
                    #[trigger] members@[m],
                ) by {
                    let member = members@[m];
                    assert(g.contains(member));
                    let pos = choose|pos: int| 0 <= pos < g.len() && g[pos] == member;
                    self.files().lemma_filter_pred(live_with_digest(d), pos);
                    self.files().lemma_filter_contains_rev(live_with_digest(d), member);
                }
            }
            out.push((digest, members));
            i = i + 1;
        }
        out
    }
}

/// Selecting strings by a mask and reading their texts is selecting their
/// texts by the mask.
pub proof fn lemma_masked_views(items: Seq<String>, mask: Seq<bool>)
    requires
        items.len() == mask.len(),
    ensures
        string_views(masked(items, mask)) == masked(string_views(items), mask),
    decreases items.len(),
{
    if items.len() > 0 {
        lemma_masked_views(items.drop_last(), mask.drop_last());
        assert(string_views(items).drop_last() =~= string_views(items.drop_last()));
        assert(string_views(items).last() == items.last()@);
        assert(string_views(masked(items, mask)) =~= masked(string_views(items), mask));
    } else {
        assert(string_views(masked(items, mask)) =~= masked(string_views(items), mask));
    }
}

/// Whether an action of this kind with this batch and these paths says
/// what a record must say.
pub open spec fn enough_said(
    kind: ActionType,
    batch: Option<String>,
    src: Option<String>,
    dst: Option<String>,
) -> bool {
    &&& batch is Some
    &&& kind != ActionType::Restore ==> dst is Some && dst->0@.len() > 0
    &&& kind == ActionType::Restore ==> src is Some && src->0@.len() > 0
}

fn has_text_in(value: &Option<String>) -> (r: bool)
    ensures
        r == (*value is Some && value->0@.len() > 0),
{
    match value {
        Some(text) => chars_of(text.as_str()).len() > 0,
        None => false,
    }
}

/// Whether an action of this kind with this batch and these paths says
/// what a record must say.
pub fn says_enough(
    kind: ActionType,
    batch: &Option<String>,
    src: &Option<String>,
    dst: &Option<String>,
) -> (r: bool)
    ensures
        r == enough_said(kind, *batch, *src, *dst),
{
    if batch.is_none() {
        return false;
    }
    match kind {
        ActionType::Restore => has_text_in(src),
        _ => has_text_in(dst),
    }
}

impl Database {
    /// Records an action at time `now` and returns its identifier. Fails,
    /// changing nothing, where the action does not say what a record must
    /// say, or where no identifier is left.
    pub fn insert_action(&mut self, action: &NewAction, now: i64) -> (out: Result<i64, StoreError>)
        requires
            old(self).wf(),
        ensures
            final(self).wf(),
            final(self).same_files(old(self)),
            final(self).roots() == old(self).roots(),
            final(self).next_root_id() == old(self).next_root_id(),
            final(self).prefs() == old(self).prefs(),
            action_complete(recorded(*action, 0, now)) && old(self).next_action_id() < i64::MAX
                ==> {
                &&& out == Ok::<i64, StoreError>(old(self).next_action_id())
                &&& final(self).actions() == old(self).actions().push(
                    recorded(*action, old(self).next_action_id(), now),
                )
                &&& final(self).next_action_id() == old(self).next_action_id() + 1
            },
            !action_complete(recorded(*action, 0, now)) ==> {
                &&& out == Err::<i64, StoreError>(StoreError::CheckViolation)
                &&& final(self).actions() == old(self).actions()
                &&& final(self).next_action_id() == old(self).next_action_id()
            },
            action_complete(recorded(*action, 0, now)) && old(self).next_action_id() == i64::MAX
                ==> {
                &&& out == Err::<i64, StoreError>(StoreError::IdsExhausted)
                &&& final(self).actions() == old(self).actions()
                &&& final(self).next_action_id() == old(self).next_action_id()
            },
    {
        if !says_enough(action.action, &action.batch_id, &action.src_path, &action.dst_path) {
            return Err(StoreError::CheckViolation);
        }
        if self.next_action_id == i64::MAX {
            return Err(StoreError::IdsExhausted);
        }
        let id = self.next_action_id;
        let entry = Action {
            id: Some(id),
            file_id: action.file_id,
            action: action.action,
            batch_id: action.batch_id.duplicate(),
            src_path: action.src_path.duplicate(),
            dst_path: action.dst_path.duplicate(),
            origin: action.origin.duplicate(),
            note: action.note.duplicate(),
            created_at: now,
        };
        self.actions.push(entry);
        self.next_action_id = id + 1;
        proof {
            let b = old(self).actions();
            let a = self.actions();
            assert forall|x: int, y: int| 0 <= x < y < a.len() implies (#[trigger] a[x]).id->0 < (
            #[trigger] a[y]).id->0 by {
                if y < b.len() {
                    assert(b[x].id->0 < b[y].id->0);
                } else {
                    assert(b[x].id->0 < old(self).next_action_id());
                }
            }
        }
        Ok(id)
    }

    fn batch_mask(&self, batch: &String) -> (mask: Vec<bool>)
        ensures
            mask@.len() == self.actions().len(),
            forall|i: int|
                0 <= i < mask@.len() ==> mask@[i] == in_batch(batch@)(#[trigger] self.actions()[i]),
    {
        let mut mask: Vec<bool> = Vec::new();
        let mut i: usize = 0;
        while i < self.actions.len()
            invariant
                i <= self.actions.len(),
                mask@.len() == i,
                forall|j: int|
                    0 <= j < i ==> mask@[j] == in_batch(batch@)(#[trigger] self.actions@[j]),
            decreases self.actions.len() - i,
        {
            mask.push(is_of_batch(&self.actions[i], batch));
            i = i + 1;
        }
        mask
    }

    /// The actions of the batch `batch_id`, earliest first; actions made
    /// at the same time in the order in which they were recorded.
    pub fn get_actions_by_batch_id(&self, batch_id: &str) -> (out: Vec<Action>)
        requires
            self.wf(),
        ensures
            out@ == arranged(
                self.actions().filter(in_batch(batch_id@)),
                created_asc_keys(self.actions().filter(in_batch(batch_id@))),
            ),
            out@.len() == self.actions().filter(in_batch(batch_id@)).len(),
            forall|k: int|
                0 <= k < out@.len() ==> in_batch(batch_id@)(#[trigger] out@[k])
                    && self.actions().contains(out@[k]),
    {
        let wanted = String::from_str(batch_id);
        let mask = self.batch_mask(&wanted);
        let sel = pick_by_mask(&self.actions, &mask);
        proof {
            lemma_masked_is_filter(self.actions(), mask@, in_batch(batch_id@));
        }
        let keys = created_keys(&sel);
        let out = arrange(&sel, &keys);
        proof {
            crate::seqs::lemma_arranged_same_items(sel@, created_asc_keys(sel@));
            assert forall|k: int| 0 <= k < out@.len() implies in_batch(batch_id@)(
                #[trigger] out@[k],
            ) && self.actions().contains(out@[k]) by {
                assert(sel@.contains(out@[k]));
                let pos = choose|pos: int| 0 <= pos < sel@.len() && sel@[pos] == out@[k];
                self.actions().lemma_filter_pred(in_batch(batch_id@), pos);
                self.actions().lemma_filter_contains_rev(in_batch(batch_id@), out@[k]);
            }
        }
        out
    }

    /// The latest action on the file `file_id`, if there is one.
    pub fn latest_action(&self, file_id: i64) -> (out: Option<Action>)
        requires
            self.wf(),
        ensures
            match out {
                Some(a) => {
                    let on = self.actions().filter(on_file(file_id));
                    on.len() > 0 && a == on[latest_index(on)]
                },
                None => self.actions().filter(on_file(file_id)).len() == 0,
            },
    {
        let mut mask: Vec<bool> = Vec::new();
        let mut i: usize = 0;
        while i < self.actions.len()
            invariant
                i <= self.actions.len(),
                mask@.len() == i,
                forall|j: int|
                    0 <= j < i ==> mask@[j] == on_file(file_id)(#[trigger] self.actions@[j]),
            decreases self.actions.len() - i,
        {
            mask.push(self.actions[i].file_id == file_id);
            i = i + 1;
        }
        let sel = pick_by_mask(&self.actions, &mask);
        proof {
            lemma_masked_is_filter(self.actions(), mask@, on_file(file_id));
        }
        match latest_of(&sel) {
            Some(k) => Some(sel[k].duplicate()),
            None => None,
        }
    }

    /// The batch of the latest action, if any action is recorded.
    pub fn get_latest_batch_id(&self) -> (out: Option<String>)
        requires
            self.wf(),
        ensures
            match out {
                Some(b) => self.actions().len() > 0 && b@ == text_or_empty(
                    self.actions()[latest_index(self.actions())].batch_id,
                ),
                None => self.actions().len() == 0,
            },
    {
        match latest_of(&self.actions) {
            Some(k) => {
                match &self.actions[k].batch_id {
                    Some(b) => Some(b.clone()),
                    None => Some(String::new()),
                }
            },
            None => None,
        }
    }

    /// The actions of kind delete made from `start` to `end`, both
    /// included, in the order in which they were recorded.
    pub fn get_files_deleted_in_period(&self, start: i64, end: i64) -> (out: Vec<Action>)
        requires
            self.wf(),
        ensures
            out@ == self.actions().filter(of_kind_within(ActionType::Delete, start, end)),
    {
        self.actions_of_kind_within(ActionType::Delete, start, end)
    }

    fn actions_of_kind_within(&self, kind: ActionType, start: i64, end: i64) -> (out: Vec<Action>)
        ensures
            out@ == self.actions().filter(of_kind_within(kind, start, end)),
    {
        let mut mask: Vec<bool> = Vec::new();
        let mut i: usize = 0;
        while i < self.actions.len()
            invariant
                i <= self.actions.len(),
                mask@.len() == i,
                forall|j: int|
                    0 <= j < i ==> mask@[j] == of_kind_within(kind, start, end)(
                        #[trigger] self.actions@[j],
                    ),
            decreases self.actions.len() - i,
        {
            let a = &self.actions[i];
            mask.push(a.action == kind && start <= a.created_at && a.created_at <= end);
            i = i + 1;
        }
        let sel = pick_by_mask(&self.actions, &mask);
        proof {
            lemma_masked_is_filter(self.actions(), mask@, of_kind_within(kind, start, end));
        }
        sel
    }

    /// For each archive made from `start` to `end`, both included, the
    /// file entry it refers to, in the order in which the archives were
    /// recorded. An entry occurs once for each such archive.
    pub fn get_files_archived_in_period(&self, start: i64, end: i64) -> (out: Vec<File>)
        requires
            self.wf(),
        ensures
            out@ == files_of_actions(
                self.files(),
                self.actions().filter(of_kind_within(ActionType::Archive, start, end)),
            ),
    {
        let archives = self.actions_of_kind_within(ActionType::Archive, start, end);
        self.files_for(&archives)
    }

    /// The file entry that each of `actions` refers to, for those that
    /// refer to one, in the order of the actions.
    pub fn files_for(&self, actions: &Vec<Action>) -> (out: Vec<File>)
        requires
            self.wf(),
        ensures
            out@ == files_of_actions(self.files(), actions@),
    {
        let mut out: Vec<File> = Vec::new();
        let mut i: usize = 0;
        while i < actions.len()
            invariant
                self.wf(),
                i <= actions.len(),
                out@ == files_of_actions(self.files(), actions@.take(i as int)),
            decreases actions.len() - i,
        {
            proof {
                assert(actions@.take(i + 1).drop_last() == actions@.take(i as int));
                assert(actions@.take(i + 1).last() == actions@[i as int]);
            }
            match self.find_id(actions[i].file_id) {
                Some(k) => {
                    out.push(self.files[k].duplicate());
                },
                None => {},
            }
            i = i + 1;
        }
        assert(actions@.take(actions@.len() as int) == actions@);
        out
    }

    fn collect_batches(&self) -> (out: Vec<String>)
        ensures
            string_views(out@) == distinct_batches(self.actions()),
    {
        let mut out: Vec<String> = Vec::new();
        let mut i: usize = 0;
        assert(string_views(out@) =~= distinct_batches(self.actions@.take(0)));
        while i < self.actions.len()
            invariant
                i <= self.actions.len(),
                string_views(out@) == distinct_batches(self.actions@.take(i as int)),
            decreases self.actions.len() - i,
        {
            proof {
                assert(self.actions@.take(i + 1).drop_last() == self.actions@.take(i as int));
                assert(self.actions@.take(i + 1).last() == self.actions@[i as int]);
            }
            let b = match &self.actions[i].batch_id {
                Some(b) => b.clone(),
                None => String::new(),
            };
            if !contains_text(&out, &b) {
                let ghost before = string_views(out@);
                out.push(b);
                assert(string_views(out@) =~= before.push(b@));
            }
            i = i + 1;
        }
        assert(self.actions@.take(self.actions@.len() as int) == self.actions@);
        out
    }

    fn has_later_restore(&self, i: usize) -> (r: bool)
        requires
            i < self.actions().len(),
        ensures
            r == restored_later(self.actions(), i as int),
    {
        let file_id = self.actions[i].file_id;
        let n = self.actions.len();
        assert(i < n);
        let mut j: usize = i + 1;
        while j < self.actions.len()
            invariant
                i < j <= self.actions.len(),
                file_id == self.actions@[i as int].file_id,
                forall|k: int|
                    i < k < j ==> !((#[trigger] self.actions@[k]).action == ActionType::Restore
                        && self.actions@[k].file_id == file_id),
            decreases self.actions.len() - j,
        {
            let a = &self.actions[j];
            if a.action == ActionType::Restore && a.file_id == file_id {
                return true;
            }
            j = j + 1;
        }
        false
    }

    fn batch_is_undoable(&self, batch: &String) -> (r: bool)
        ensures
            r == is_undoable(self.actions(), batch@),
    {
        let mut found = false;
        let mut i: usize = 0;
        while i < self.actions.len()
            invariant
                i <= self.actions.len(),
                found == exists|k: int| 0 <= k < i && is_forward_member(self.actions(), batch@, k),
                forall|k: int|
                    0 <= k < i && is_forward_member(self.actions(), batch@, k) ==> !restored_later(
                        self.actions(),
                        k,
                    ),
            decreases self.actions.len() - i,
        {
            let a = &self.actions[i];
            if is_of_batch(a, batch) && a.action != ActionType::Restore {
                assert(is_forward_member(self.actions(), batch@, i as int));
                if self.has_later_restore(i) {
                    return false;
                }
                found = true;
            }
            i = i + 1;
        }
        found
    }

    fn batch_time(&self, batch: &String) -> (t: i64)
        ensures
            t == batch_created_at(self.actions(), batch@),
    {
        let mut t: i64 = i64::MAX;
        let mut i: usize = 0;
        while i < self.actions.len()
            invariant
                i <= self.actions.len(),
                t == batch_created_at(self.actions@.take(i as int), batch@),
            decreases self.actions.len() - i,
        {
            proof {
                assert(self.actions@.take(i + 1).drop_last() == self.actions@.take(i as int));
                assert(self.actions@.take(i + 1).last() == self.actions@[i as int]);
            }
            let a = &self.actions[i];
            if is_of_batch(a, batch) && a.created_at < t {
                t = a.created_at;
            }
            i = i + 1;
        }
        assert(self.actions@.take(self.actions@.len() as int) == self.actions@);
        t
    }

    /// The batches that can be undone, newest first.
    ///
    /// A batch can be undone where it holds an archive or a delete and no
    /// restore of the file of one of its archives or deletes is recorded
    /// after that action.
    pub fn get_undoable_batches(&self) -> (out: Vec<String>)
        requires
            self.wf(),
        ensures
            string_views(out@) == undoable_batches(self.actions()),
            forall|k: int|
                0 <= k < out@.len() ==> is_undoable(self.actions(), (#[trigger] out@[k])@),
    {
        let batches = self.collect_batches();
        let ghost all = distinct_batches(self.actions());
        let mut mask: Vec<bool> = Vec::new();
        let mut i: usize = 0;
        while i < batches.len()
            invariant
                i <= batches.len(),
                mask@.len() == i,
                string_views(batches@) == all,
                forall|j: int|
                    0 <= j < i ==> mask@[j] == undoable_in(self.actions())(#[trigger] all[j]),
            decreases batches.len() - i,
        {
            assert(string_views(batches@)[i as int] == batches@[i as int]@);
            mask.push(self.batch_is_undoable(&batches[i]));
            i = i + 1;
        }
        let kept = pick_by_mask(&batches, &mask);
        let ghost undoable = all.filter(undoable_in(self.actions()));
        proof {
            lemma_masked_views(batches@, mask@);
            lemma_masked_is_filter(all, mask@, undoable_in(self.actions()));
        }
        let mut keys: Vec<Vec<i128>> = Vec::new();
        let mut i: usize = 0;
        while i < kept.len()
            invariant
                i <= kept.len(),
                keys@.len() == i,
                string_views(kept@) == undoable,
                forall|j: int|
                    0 <= j < i ==> crate::order::ints((#[trigger] keys@[j])@) == seq![
                        -batch_created_at(self.actions(), undoable[j]),
                    ],
            decreases kept.len() - i,
        {
            assert(string_views(kept@)[i as int] == kept@[i as int]@);
            let t = self.batch_time(&kept[i]);
            keys.push(key1(-(t as i128)));
            i = i + 1;
        }
        let ghost kv = batch_newest_first_keys(self.actions(), undoable);
        assert(key_views(keys@) =~= kv);
        let out = arrange(&kept, &keys);
        proof {
            assert(string_views(out@) =~= arranged(undoable, kv));
            crate::seqs::lemma_arranged_same_items(undoable, kv);
            assert forall|k: int| 0 <= k < out@.len() implies is_undoable(
                self.actions(),
                (#[trigger] out@[k])@,
            ) by {
                let b = arranged(undoable, kv)[k];
                assert(string_views(out@)[k] == out@[k]@);
                assert(undoable.contains(b));
                let pos = choose|pos: int| 0 <= pos < undoable.len() && undoable[pos] == b;
                all.lemma_filter_pred(undoable_in(self.actions()), pos);
            }
        }
        out
    }
}

/// Whether the action belongs to the batch `batch`.
pub fn is_of_batch(a: &Action, batch: &String) -> (r: bool)
    ensures
        r == (text_or_empty(a.batch_id) == batch@),
{
    match &a.batch_id {
        Some(b) => *b == *batch,
        None => {
            let n = batch.as_str().unicode_len();
            proof {
                if n == 0 {
                    assert(batch@ =~= Seq::<char>::empty());
                }
            }
            n == 0
        },
    }
}

fn created_keys(actions: &Vec<Action>) -> (keys: Vec<Vec<i128>>)
    ensures
        keys@.len() == actions@.len(),
        key_views(keys@) == created_asc_keys(actions@),
{
    let mut keys: Vec<Vec<i128>> = Vec::new();
    let mut i: usize = 0;
    while i < actions.len()
        invariant
            i <= actions.len(),
            keys@.len() == i,
            forall|j: int|
                0 <= j < i ==> crate::order::ints((#[trigger] keys@[j])@) == seq![
                    actions@[j].created_at as int,
                ],
        decreases actions.len() - i,
    {
        keys.push(key1(actions[i].created_at as i128));
        i = i + 1;
    }
    assert(key_views(keys@) =~= created_asc_keys(actions@));
    keys
}

/// The position of the latest of `actions`, if there is any.
pub fn latest_of(actions: &Vec<Action>) -> (out: Option<usize>)
    ensures
        match out {
            Some(k) => actions@.len() > 0 && k == latest_index(actions@) && k < actions@.len(),
            None => actions@.len() == 0,
        },
{
    if actions.len() == 0 {
        return None;
    }
    let mut k: usize = 0;
    let mut i: usize = 1;
    assert(actions@.take(1).len() == 1);
    while i < actions.len()
        invariant
            1 <= i <= actions.len(),
            k < i,
            k == latest_index(actions@.take(i as int)),
        decreases actions.len() - i,
    {
        proof {
            assert(actions@.take(i + 1).drop_last() == actions@.take(i as int));
            assert(actions@.take(i + 1).last() == actions@[i as int]);
            assert(actions@.take(i + 1)[k as int] == actions@[k as int]);
        }
        if actions[i].created_at >= actions[k].created_at {
            k = i;
        }
        i = i + 1;
    }
    assert(actions@.take(actions@.len() as int) == actions@);
    Some(k)
}

impl Database {
    /// The state that staging works on.
    pub open spec fn staged_state(&self) -> StagedState {
        StagedState {
            files: self.files(),
            slots: self.slots(),
            next_id: self.next_staged_id() as int,
        }
    }

    /// Stages `entries`, one after the other, or none of them.
    ///
    /// An entry must refer to a live file entry, and its expiry must not
    /// be before its staging time. The first entry that does not decides
    /// the error. Staging also fails where fewer staged record identifiers
    /// are left than there are entries.
    pub fn stage_files(&mut self, entries: &Vec<NewStagedFile>) -> (out: Result<(), StoreError>)
        requires
            old(self).wf(),
        ensures
            final(self).wf(),
            final(self).same_log_and_settings(old(self)),
            final(self).next_file_id() == old(self).next_file_id(),
            out is Ok ==> final(self).staged_state() == stage_all(
                old(self).staged_state(),
                entries@,
            ),
            out is Err ==> final(self).same_files(old(self)),
            out is Ok <==> (forall|i: int|
                0 <= i < entries@.len() ==> can_stage(old(self).files(), #[trigger] entries@[i]))
                && old(self).next_staged_id() + entries@.len() <= i64::MAX,
            forall|i: int|
                0 <= i < entries@.len() && !can_stage(old(self).files(), entries@[i]) && (forall|
                    j: int,
                | 0 <= j < i ==> can_stage(old(self).files(), #[trigger] entries@[j])) ==> out
                    == Err::<(), StoreError>(
                    if refers_to_live_file(old(self).files(), entries@[i]) {
                        StoreError::CheckViolation
                    } else {
                        StoreError::ForeignKeyViolation
                    },
                ),
            (forall|i: int|
                0 <= i < entries@.len() ==> can_stage(old(self).files(), #[trigger] entries@[i]))
                && old(self).next_staged_id() + entries@.len() > i64::MAX ==> out == Err::<
                (),
                StoreError,
            >(StoreError::IdsExhausted),
    {
        let mut i: usize = 0;
        while i < entries.len()
            invariant
                self.wf(),
                *self == *old(self),
                i <= entries.len(),
                forall|j: int| 0 <= j < i ==> can_stage(self.files(), #[trigger] entries@[j]),
            decreases entries.len() - i,
        {
            let e = &entries[i];
            let live = match self.find_id(e.file_id) {
                Some(k) => !self.files[k].is_deleted,
                None => false,
            };
            proof {
                if refers_to_live_file(self.files(), *e) {
                    let w = choose|w: int|
                        0 <= w < self.files().len() && (#[trigger] self.files()[w]).id == Some(
                            e.file_id,
                        ) && !self.files()[w].is_deleted;
                    assert(self.has_id(e.file_id));
                    let k = self.index_of_id(e.file_id);
                    if w < k {
                        assert(self.files()[w].id->0 < self.files()[k].id->0);
                    } else if k < w {
                        assert(self.files()[k].id->0 < self.files()[w].id->0);
                    }
                }
            }
            if !live {
                return Err(StoreError::ForeignKeyViolation);
            }
            let times_ok = match e.expires_at {
                Some(x) => x >= e.staged_at,
                None => true,
            };
            if !times_ok {
                return Err(StoreError::CheckViolation);
            }
            i = i + 1;
        }
        let left: i64 = i64::MAX - self.next_staged_id;
        if (entries.len() as u64) > (left as u64) {
            return Err(StoreError::IdsExhausted);
        }
        let ghost start = self.staged_state();
        let mut i: usize = 0;
        while i < entries.len()
            invariant
                i <= entries.len(),
                old(self).wf(),
                self.wf(),
                start == old(self).staged_state(),
                self.same_log_and_settings(old(self)),
                self.next_file_id() == old(self).next_file_id(),
                self.files().len() == old(self).files().len(),
                forall|k: int|
                    0 <= k < self.files().len() ==> (#[trigger] self.files()[k]).id == old(
                        self,
                    ).files()[k].id && self.files()[k].is_deleted == old(self).files()[k].is_deleted,
                forall|j: int| 0 <= j < entries@.len() ==> can_stage(
                    old(self).files(),
                    #[trigger] entries@[j],
                ),
                self.next_staged_id() <= old(self).next_staged_id() + i,
                old(self).next_staged_id() + entries@.len() <= i64::MAX,
                self.staged_state() == stage_all(start, entries@.take(i as int)),
            decreases entries.len() - i,
        {
            let e = &entries[i];
            proof {
                assert(entries@.take(i + 1).drop_last() == entries@.take(i as int));
                assert(entries@.take(i + 1).last() == entries@[i as int]);
                assert(can_stage(old(self).files(), *e));
                let w = choose|w: int|
                    0 <= w < old(self).files().len() && (#[trigger] old(self).files()[w]).id
                        == Some(e.file_id) && !old(self).files()[w].is_deleted;
                assert(self.files()[w].id == Some(e.file_id));
                assert(self.has_id(e.file_id));
            }
            let k = match self.find_id(e.file_id) {
                Some(k) => k,
                None => 0,
            };
            let ghost prev = *self;
            proof {
                let c = choose|c: int|
                    0 <= c < self.files().len() && (#[trigger] self.files()[c]).id == Some(
                        e.file_id,
                    );
                assert(c == self.index_of_id(e.file_id));
                assert(c == k);
            }
            let id = match &self.slots[k] {
                Some(r) => r.id,
                None => self.next_staged_id,
            };
            let fresh = self.slots[k].is_none();
            let mut entry = self.files[k].duplicate();
            entry.is_staged = true;
            entry.cooloff_until = e.expires_at;
            self.files.set(k, entry);
            self.slots.set(
                k,
                Some(
                    StagedFileRecord {
                        id,
                        file_id: e.file_id,
                        staged_at: e.staged_at,
                        expires_at: e.expires_at,
                        batch_id: e.batch_id.duplicate(),
                        status: e.status,
                        note: e.note.duplicate(),
                    },
                ),
            );
            if fresh {
                self.next_staged_id = self.next_staged_id + 1;
            }
            proof {
                let b = prev.files();
                let a = self.files();
                assert(self.staged_state().files =~= stage_one(prev.staged_state(), *e).files);
                assert(self.staged_state().slots =~= stage_one(prev.staged_state(), *e).slots);
                assert(self.staged_state() == stage_one(prev.staged_state(), *e));
                assert forall|x: int| 0 <= x < a.len() implies row_ok(
                    #[trigger] a[x],
                    self.slots()[x],
                    self.next_file_id(),
                    self.next_staged_id(),
                ) by {
                    assert(row_ok(b[x], prev.slots()[x], prev.next_file_id(), prev.next_staged_id()));
                }
                assert forall|x: int, y: int| 0 <= x < y < a.len() implies (#[trigger] a[x]).id->0
                    < (#[trigger] a[y]).id->0 && a[x].path@ != a[y].path@ by {
                    assert(b[x].id->0 < b[y].id->0);
                    assert(b[x].path@ != b[y].path@);
                }
                assert forall|x: int, y: int|
                    0 <= x < y < self.slots().len() && (#[trigger] self.slots()[x]) is Some && (
                    #[trigger] self.slots()[y]) is Some implies self.slots()[x]->0.id
                    != self.slots()[y]->0.id by {
                    assert(row_ok(b[x], prev.slots()[x], prev.next_file_id(), prev.next_staged_id()));
                    assert(row_ok(b[y], prev.slots()[y], prev.next_file_id(), prev.next_staged_id()));
                    if x != k as int && y != k as int {
                        assert(prev.slots()[x] is Some && prev.slots()[y] is Some);
                    } else if !fresh {
                        assert(prev.slots()[x] is Some && prev.slots()[y] is Some);
                    }
                }
            }
            i = i + 1;
        }
        proof {
            assert(entries@.take(entries@.len() as int) == entries@);
        }
        Ok(())
    }

    /// Sets the status of the staged records of the files `file_ids`.
    pub fn update_staged_status(&mut self, file_ids: &Vec<i64>, status: StagedStatus)
        requires
            old(self).wf(),
        ensures
            final(self).wf(),
            final(self).same_log_and_settings(old(self)),
            final(self).files() == old(self).files(),
            final(self).next_file_id() == old(self).next_file_id(),
            final(self).next_staged_id() == old(self).next_staged_id(),
            final(self).slots() == with_status(
                old(self).files(),
                old(self).slots(),
                file_ids@,
                status,
            ),
    {
        let mut i: usize = 0;
        while i < self.slots.len()
            invariant
                old(self).wf(),
                i <= self.slots.len(),
                self.files == old(self).files,
                self.slots@.len() == old(self).slots().len(),
                self.same_log_and_settings(old(self)),
                self.next_file_id() == old(self).next_file_id(),
                self.next_staged_id() == old(self).next_staged_id(),
                forall|k: int|
                    0 <= k < i ==> self.slots@[k] == with_status(
                        old(self).files(),
                        old(self).slots(),
                        file_ids@,
                        status,
                    )[k],
                forall|k: int| i <= k < self.slots@.len() ==> self.slots@[k] == old(self).slots()[k],
            decreases self.slots.len() - i,
        {
            assert(row_ok(
                old(self).files()[i as int],
                old(self).slots()[i as int],
                self.next_file_id(),
                self.next_staged_id(),
            ));
            let listed = match self.files[i].id {
                Some(id) => contains_id(file_ids, id),
                None => false,
            };
            if listed {
                let updated = match &self.slots[i] {
                    Some(r) => {
                        let mut r2 = r.duplicate();
                        r2.status = status;
                        Some(r2)
                    },
                    None => None,
                };
                self.slots.set(i, updated);
            }
            i = i + 1;
        }
        proof {
            assert(self.slots() =~= with_status(
                old(self).files(),
                old(self).slots(),
                file_ids@,
                status,
            ));
            let a = self.files();
            assert forall|x: int| 0 <= x < a.len() implies row_ok(
                #[trigger] a[x],
                self.slots()[x],
                self.next_file_id(),
                self.next_staged_id(),
            ) by {
                assert(row_ok(a[x], old(self).slots()[x], self.next_file_id(), self.next_staged_id()));
            }
            assert forall|x: int, y: int|
                0 <= x < y < self.slots().len() && (#[trigger] self.slots()[x]) is Some && (
                #[trigger] self.slots()[y]) is Some implies self.slots()[x]->0.id
                != self.slots()[y]->0.id by {
                assert(old(self).slots()[x] is Some && old(self).slots()[y] is Some);
            }
        }
    }

    /// Marks the files `file_ids` as not staged, clears their cool-off and
    /// removes their staged records.
    pub fn mark_files_unstaged(&mut self, file_ids: &Vec<i64>)
        requires
            old(self).wf(),
        ensures
            final(self).wf(),
            final(self).same_log_and_settings(old(self)),
            final(self).next_file_id() == old(self).next_file_id(),
            final(self).next_staged_id() == old(self).next_staged_id(),
            final(self).files() == unstaged(old(self).files(), file_ids@),
            final(self).slots() == unstaged_slots(old(self).files(), old(self).slots(), file_ids@),
    {
        let mut i: usize = 0;
        while i < self.files.len()
            invariant
                old(self).wf(),
                i <= self.files.len(),
                self.files@.len() == old(self).files().len(),
                self.slots@.len() == old(self).slots().len(),
                self.same_log_and_settings(old(self)),
                self.next_file_id() == old(self).next_file_id(),
                self.next_staged_id() == old(self).next_staged_id(),
                forall|k: int|
                    0 <= k < i ==> self.files@[k] == unstaged(old(self).files(), file_ids@)[k]
                        && self.slots@[k] == unstaged_slots(
                        old(self).files(),
                        old(self).slots(),
                        file_ids@,
                    )[k],
                forall|k: int|
                    i <= k < self.files@.len() ==> self.files@[k] == old(self).files()[k]
                        && self.slots@[k] == old(self).slots()[k],
            decreases self.files.len() - i,
        {
            assert(row_ok(
                old(self).files()[i as int],
                old(self).slots()[i as int],
                self.next_file_id(),
                self.next_staged_id(),
            ));
            let listed = match self.files[i].id {
                Some(id) => contains_id(file_ids, id),
                None => false,
            };
            if listed {
                let mut entry = self.files[i].duplicate();
                entry.is_staged = false;
                entry.cooloff_until = None;
                self.files.set(i, entry);
                self.slots.set(i, None);
            }
            i = i + 1;
        }
        proof {
            let b = old(self).files();
            let a = self.files();
            assert(a =~= unstaged(b, file_ids@));
            assert(self.slots() =~= unstaged_slots(b, old(self).slots(), file_ids@));
            assert forall|x: int| 0 <= x < a.len() implies row_ok(
                #[trigger] a[x],
                self.slots()[x],
                self.next_file_id(),
                self.next_staged_id(),
            ) by {
                assert(row_ok(b[x], old(self).slots()[x], self.next_file_id(), self.next_staged_id()));
            }
            assert forall|x: int, y: int| 0 <= x < y < a.len() implies (#[trigger] a[x]).id->0 < (
            #[trigger] a[y]).id->0 && a[x].path@ != a[y].path@ by {
                assert(b[x].id->0 < b[y].id->0);
                assert(b[x].path@ != b[y].path@);
            }
            assert forall|x: int, y: int|
                0 <= x < y < self.slots().len() && (#[trigger] self.slots()[x]) is Some && (
                #[trigger] self.slots()[y]) is Some implies self.slots()[x]->0.id
                != self.slots()[y]->0.id by {
                assert(old(self).slots()[x] is Some && old(self).slots()[y] is Some);
            }
        }
    }

    /// The staged records with their file entries, by ascending file
    /// identifier; only those with one of `statuses` where a filter is
    /// given.
    pub fn list_staged_with_files(&self, statuses: Option<&Vec<StagedStatus>>) -> (out: Vec<
        (StagedFileRecord, File),
    >)
        requires
            self.wf(),
        ensures
            out@ == staged_pairs(
                self.files(),
                self.slots(),
                match statuses {
                    Some(v) => Some(v@),
                    None => None,
                },
            ),
    {
        let ghost filter: Option<Seq<StagedStatus>> = match statuses {
            Some(v) => Some(v@),
            None => None,
        };
        let mut out: Vec<(StagedFileRecord, File)> = Vec::new();
        let mut i: usize = 0;
        while i < self.files.len()
            invariant
                self.wf(),
                i <= self.files.len(),
                filter == (match statuses {
                    Some(v) => Some(v@),
                    None => None::<Seq<StagedStatus>>,
                }),
                out@ == staged_pairs(
                    self.files@.take(i as int),
                    self.slots@.take(i as int),
                    filter,
                ),
            decreases self.files.len() - i,
        {
            proof {
                assert(self.files@.take(i + 1).drop_last() == self.files@.take(i as int));
                assert(self.slots@.take(i + 1).drop_last() == self.slots@.take(i as int));
                assert(self.files@.take(i + 1).last() == self.files@[i as int]);
                assert(self.slots@.take(i + 1).last() == self.slots@[i as int]);
            }
            match &self.slots[i] {
                Some(r) => {
                    let listed = match statuses {
                        Some(v) => contains_status(v, r.status),
                        None => true,
                    };
                    if listed {
                        out.push((r.duplicate(), self.files[i].duplicate()));
                    }
                },
                None => {},
            }
            i = i + 1;
        }
        proof {
            assert(self.files@.take(self.files@.len() as int) == self.files@);
            assert(self.slots@.take(self.slots@.len() as int) == self.slots@);
        }
        out
    }

    /// The file entries whose staged record has status staged and was
    /// staged from `start` to `end`, both included, by ascending
    /// identifier.
    pub fn list_current_staged_files_in_period(&self, start: i64, end: i64) -> (out: Vec<File>)
        requires
            self.wf(),
        ensures
            out@ == masked(self.files(), staged_within_marks(self.slots(), start, end)),
    {
        let mut mask: Vec<bool> = Vec::new();
        let mut i: usize = 0;
        while i < self.slots.len()
            invariant
                i <= self.slots.len(),
                mask@.len() == i,
                forall|j: int|
                    0 <= j < i ==> mask@[j] == staged_within_marks(self.slots(), start, end)[j],
            decreases self.slots.len() - i,
        {
            let hit = match &self.slots[i] {
                Some(r) => r.status == StagedStatus::Staged && start <= r.staged_at && r.staged_at
                    <= end,
                None => false,
            };
            mask.push(hit);
            i = i + 1;
        }
        assert(mask@ =~= staged_within_marks(self.slots(), start, end));
        pick_by_mask(&self.files, &mask)
    }

    /// Registers `path` as a watched root at time `now`, unless it is one
    /// already, and returns the root's identifier. Fails, changing nothing,
    /// only where a new root is due and no identifier is left.
    pub fn upsert_watched_root(&mut self, path: &str, now: i64) -> (out: Result<i64, StoreError>)
        requires
            old(self).wf(),
        ensures
            final(self).wf(),
            final(self).same_files(old(self)),
            final(self).actions() == old(self).actions(),
            final(self).next_action_id() == old(self).next_action_id(),
            final(self).prefs() == old(self).prefs(),
            has_root(old(self).roots(), path@) ==> {
                &&& out == Ok::<i64, StoreError>(
                    old(self).roots()[index_of_root(old(self).roots(), path@)].id,
                )
                &&& final(self).roots() == old(self).roots()
                &&& final(self).next_root_id() == old(self).next_root_id()
            },
            !has_root(old(self).roots(), path@) && old(self).next_root_id() < i64::MAX ==> {
                &&& out == Ok::<i64, StoreError>(old(self).next_root_id())
                &&& final(self).roots().len() == old(self).roots().len() + 1
                &&& final(self).roots().drop_last() == old(self).roots()
                &&& final(self).roots().last().id == old(self).next_root_id()
                &&& final(self).roots().last().path@ == path@
                &&& final(self).roots().last().created_at == now
                &&& final(self).next_root_id() == old(self).next_root_id() + 1
            },
            !has_root(old(self).roots(), path@) && old(self).next_root_id() == i64::MAX ==> {
                &&& out == Err::<i64, StoreError>(StoreError::IdsExhausted)
                &&& final(self).roots() == old(self).roots()
                &&& final(self).next_root_id() == old(self).next_root_id()
            },
    {
        let wanted = String::from_str(path);
        match self.find_root(&wanted) {
            Some(i) => Ok(self.roots[i].id),
            None => {
                if self.next_root_id == i64::MAX {
                    return Err(StoreError::IdsExhausted);
                }
                let id = self.next_root_id;
                self.roots.push(WatchedRoot { id, path: wanted, created_at: now });
                self.next_root_id = id + 1;
                proof {
                    let b = old(self).roots();
                    let a = self.roots();
                    assert(a.drop_last() =~= b);
                    assert forall|x: int, y: int| 0 <= x < y < a.len() implies (#[trigger] a[x]).id
                        < (#[trigger] a[y]).id && a[x].path@ != a[y].path@ by {
                        if y < b.len() {
                            assert(b[x].id < b[y].id);
                            assert(b[x].path@ != b[y].path@);
                        } else {
                            assert(b[x].id < old(self).next_root_id());
                            assert(b[x].path@ != path@);
                        }
                    }
                }
                Ok(id)
            },
        }
    }

    fn find_root(&self, path: &String) -> (found: Option<usize>)
        requires
            self.wf(),
        ensures
            match found {
                Some(i) => i < self.roots().len() && self.roots()[i as int].path@ == path@
                    && has_root(self.roots(), path@) && index_of_root(self.roots(), path@) == i,
                None => !has_root(self.roots(), path@),
            },
    {
        let mut i: usize = 0;
        while i < self.roots.len()
            invariant
                self.wf(),
                i <= self.roots.len(),
                forall|j: int| 0 <= j < i ==> (#[trigger] self.roots@[j]).path@ != path@,
            decreases self.roots.len() - i,
        {
            if self.roots[i].path == *path {
                proof {
                    assert(self.roots()[i as int].path@ == path@);
                    assert(has_root(self.roots(), path@));
                    let k = index_of_root(self.roots(), path@);
                    assert(0 <= k < self.roots().len() && self.roots()[k].path@ == path@);
                    if k > i {
                        assert(self.roots()[i as int].path@ != self.roots()[k].path@);
                    }
                }
                return Some(i);
            }
            i = i + 1;
        }
        None
    }

    /// Removes the watched root with the path `path`, if there is one. No
    /// file entry is touched.
    pub fn delete_watched_root(&mut self, path: &str)
        requires
            old(self).wf(),
        ensures
            final(self).wf(),
            final(self).same_files(old(self)),
            final(self).actions() == old(self).actions(),
            final(self).next_action_id() == old(self).next_action_id(),
            final(self).prefs() == old(self).prefs(),
            final(self).next_root_id() == old(self).next_root_id(),
            has_root(old(self).roots(), path@) ==> final(self).roots() == old(self).roots().remove(
                index_of_root(old(self).roots(), path@),
            ),
            !has_root(old(self).roots(), path@) ==> final(self).roots() == old(self).roots(),
    {
        let wanted = String::from_str(path);
        match self.find_root(&wanted) {
            Some(i) => {
                self.roots.remove(i);
                proof {
                    let b = old(self).roots();
                    let a = self.roots();
                    assert forall|x: int| 0 <= x < a.len() implies 0 < (#[trigger] a[x]).id
                        < self.next_root_id() by {
                        if x < i {
                            assert(a[x] == b[x]);
                        } else {
                            assert(a[x] == b[x + 1]);
                        }
                    }
                    assert forall|x: int, y: int| 0 <= x < y < a.len() implies (#[trigger] a[x]).id
                        < (#[trigger] a[y]).id && a[x].path@ != a[y].path@ by {
                        let bx = if x < i {
                            x
                        } else {
                            x + 1
                        };
                        let by = if y < i {
                            y
                        } else {
                            y + 1
                        };
                        assert(a[x] == b[bx] && a[y] == b[by]);
                        assert(b[bx].id < b[by].id);
                        assert(b[bx].path@ != b[by].path@);
                    }
                }
            },
            None => {},
        }
    }

    /// The watched root with the identifier `id`, if there is one.
    pub fn get_watched_root_by_id(&self, id: i64) -> (out: Option<WatchedRoot>)
        requires
            self.wf(),
        ensures
            match out {
                Some(r) => self.roots().contains(r) && r.id == id,
                None => forall|i: int|
                    0 <= i < self.roots().len() ==> (#[trigger] self.roots()[i]).id != id,
            },
    {
        let mut i: usize = 0;
        while i < self.roots.len()
            invariant
                i <= self.roots.len(),
                forall|j: int| 0 <= j < i ==> (#[trigger] self.roots@[j]).id != id,
            decreases self.roots.len() - i,
        {
            if self.roots[i].id == id {
                let r = self.roots[i].duplicate();
                assert(self.roots()[i as int] == r);
                return Some(r);
            }
            i = i + 1;
        }
        None
    }

    /// The watched roots, earliest registration first.
    pub fn list_watched_roots(&self) -> (out: Vec<WatchedRoot>)
        requires
            self.wf(),
        ensures
            out@ == arranged(self.roots(), root_created_asc_keys(self.roots())),
    {
        let mut keys: Vec<Vec<i128>> = Vec::new();
        let mut i: usize = 0;
        while i < self.roots.len()
            invariant
                i <= self.roots.len(),
                keys@.len() == i,
                forall|j: int|
                    0 <= j < i ==> crate::order::ints((#[trigger] keys@[j])@) == seq![
                        self.roots@[j].created_at as int,
                    ],
            decreases self.roots.len() - i,
        {
            keys.push(key1(self.roots[i].created_at as i128));
            i = i + 1;
        }
        assert(key_views(keys@) =~= root_created_asc_keys(self.roots()));
        arrange(&self.roots, &keys)
    }

    /// The paths of the watched roots, earliest registration first.
    pub fn list_watched_paths(&self) -> (out: Vec<String>)
        requires
            self.wf(),
        ensures
            out@.len() == self.roots().len(),
            forall|k: int|
                0 <= k < out@.len() ==> (#[trigger] out@[k]) == arranged(
                    self.roots(),
                    root_created_asc_keys(self.roots()),
                )[k].path,
    {
        let roots = self.list_watched_roots();
        let mut out: Vec<String> = Vec::new();
        let mut i: usize = 0;
        while i < roots.len()
            invariant
                i <= roots.len(),
                out@.len() == i,
                forall|k: int| 0 <= k < i ==> (#[trigger] out@[k]) == roots@[k].path,
            decreases roots.len() - i,
        {
            out.push(roots[i].path.clone());
            i = i + 1;
        }
        out
    }

    fn find_pref(&self, key: &String) -> (found: Option<usize>)
        requires
            self.wf(),
        ensures
            match found {
                Some(i) => i < self.prefs().len() && self.prefs()[i as int].key@ == key@
                    && has_pref(self.prefs(), key@) && index_of_pref(self.prefs(), key@) == i,
                None => !has_pref(self.prefs(), key@),
            },
    {
        let mut i: usize = 0;
        while i < self.prefs.len()
            invariant
                self.wf(),
                i <= self.prefs.len(),
                forall|j: int| 0 <= j < i ==> (#[trigger] self.prefs@[j]).key@ != key@,
            decreases self.prefs.len() - i,
        {
            if self.prefs[i].key == *key {
                proof {
                    assert(self.prefs()[i as int].key@ == key@);
                    assert(has_pref(self.prefs(), key@));
                    let k = index_of_pref(self.prefs(), key@);
                    assert(0 <= k < self.prefs().len() && self.prefs()[k].key@ == key@);
                    if k > i {
                        assert(self.prefs()[i as int].key@ != self.prefs()[k].key@);
                    }
                }
                return Some(i);
            }
            i = i + 1;
        }
        None
    }

    /// Sets the preference `key` to `value`: the value of an existing
    /// preference is replaced, a new one is appended.
    pub fn set_preference(&mut self, key: &str, value: &str)
        requires
            old(self).wf(),
        ensures
            final(self).wf(),
            final(self).same_files(old(self)),
            final(self).actions() == old(self).actions(),
            final(self).next_action_id() == old(self).next_action_id(),
            final(self).roots() == old(self).roots(),
            final(self).next_root_id() == old(self).next_root_id(),
            pref_views(final(self).prefs()) == with_pref(
                pref_views(old(self).prefs()),
                key@,
                value@,
            ),
    {
        let k = String::from_str(key);
        let v = String::from_str(value);
        let ghost before = pref_views(self.prefs());
        match self.find_pref(&k) {
            Some(i) => {
                self.prefs.set(i, Preference { key: k, value: v });
                proof {
                    let b = old(self).prefs();
                    let a = self.prefs();
                    assert forall|x: int, y: int| 0 <= x < y < a.len() implies (
                    #[trigger] a[x]).key@ != (#[trigger] a[y]).key@ by {
                        assert(b[x].key@ != b[y].key@);
                    }
                    assert(before[i as int].0 == key@);
                    let c = choose|c: int| 0 <= c < before.len() && (#[trigger] before[c]).0 == key@;
                    if c < i {
                        assert(b[c].key@ != b[i as int].key@);
                    } else if c > i {
                        assert(b[i as int].key@ != b[c].key@);
                    }
                    assert(pref_views(a) =~= before.update(i as int, (key@, value@)));
                }
            },
            None => {
                self.prefs.push(Preference { key: k, value: v });
                proof {
                    let b = old(self).prefs();
                    let a = self.prefs();
                    let n = b.len() as int;
                    assert forall|x: int, y: int| 0 <= x < y < a.len() implies (
                    #[trigger] a[x]).key@ != (#[trigger] a[y]).key@ by {
                        if y < n {
                            assert(b[x].key@ != b[y].key@);
                        } else {
                            assert(b[x].key@ != key@);
                        }
                    }
                    assert forall|c: int| 0 <= c < before.len() implies (#[trigger] before[c]).0
                        != key@ by {
                        assert(b[c].key@ != key@);
                    }
                    assert(pref_views(a) =~= before.push((key@, value@)));
                }
            },
        }
    }

    /// The value of the preference `key`, if it is set.
    pub fn get_preference(&self, key: &str) -> (out: Option<String>)
        requires
            self.wf(),
        ensures
            match out {
                Some(v) => pref_text(pref_views(self.prefs()), key@) == Some(v@),
                None => pref_text(pref_views(self.prefs()), key@) is None,
            },
    {
        let k = String::from_str(key);
        let ghost pairs = pref_views(self.prefs());
        match self.find_pref(&k) {
            Some(i) => {
                proof {
                    assert(pairs[i as int].0 == key@);
                    let c = choose|c: int| 0 <= c < pairs.len() && (#[trigger] pairs[c]).0 == key@;
                    if c < i {
                        assert(self.prefs()[c].key@ != self.prefs()[i as int].key@);
                    } else if c > i {
                        assert(self.prefs()[i as int].key@ != self.prefs()[c].key@);
                    }
                }
                Some(self.prefs[i].value.clone())
            },
            None => {
                proof {
                    assert forall|c: int| 0 <= c < pairs.len() implies (#[trigger] pairs[c]).0
                        != key@ by {
                        assert(self.prefs()[c].key@ != key@);
                    }
                }
                None
            },
        }
    }

    /// All preferences; no key occurs twice.
    pub fn get_all_preferences(&self) -> (out: Vec<Preference>)
        requires
            self.wf(),
        ensures
            out@ == self.prefs(),
            prefs_ok(out@),
    {
        duplicate_all(&self.prefs)
    }
}

/// Whether `id` is one of `ids`.
pub fn contains_id(ids: &Vec<i64>, id: i64) -> (r: bool)
    ensures
        r == ids@.contains(id),
{
    let mut i: usize = 0;
    while i < ids.len()
        invariant
            i <= ids.len(),
            forall|j: int| 0 <= j < i ==> ids@[j] != id,
        decreases ids.len() - i,
    {
        if ids[i] == id {
            return true;
        }
        i = i + 1;
    }
    false
}

/// Whether `status` is one of `listed`.
pub fn contains_status(listed: &Vec<StagedStatus>, status: StagedStatus) -> (r: bool)
    ensures
        r == listed@.contains(status),
{
    let mut i: usize = 0;
    while i < listed.len()
        invariant
            i <= listed.len(),
            forall|j: int| 0 <= j < i ==> listed@[j] != status,
        decreases listed.len() - i,
    {
        if listed[i] == status {
            return true;
        }
        i = i + 1;
    }
    false
}

/// The identifier after the largest of the staged records in the slots; 1
/// where there is none.
pub open spec fn next_after_slots(slots: Seq<Option<StagedFileRecord>>) -> int
    decreases slots.len(),
{
    if slots.len() == 0 {
        1
    } else {
        let before = next_after_slots(slots.drop_last());
        if slots.last() is Some && slots.last()->0.id >= before {
            slots.last()->0.id + 1
        } else {
            before
        }
    }
}

/// The file entries and their staged slots can make up a catalog: every
/// entry has an identifier above zero and below the largest number, the
/// identifiers ascend, no path occurs twice, no entry was last seen before
/// it was first seen, an entry that is gone is not staged and has no
/// cool-off, an entry is staged exactly where its slot holds a record, and
/// each record belongs to its entry, has an identifier of its own above
/// zero and below the largest number, and does not expire before it was
/// staged.
pub open spec fn files_fit(files: Seq<File>, slots: Seq<Option<StagedFileRecord>>) -> bool {
    &&& slots.len() == files.len()
    &&& forall|i: int|
        0 <= i < files.len() ==> (#[trigger] files[i]).id is Some && 0 < files[i].id->0 < i64::MAX
    &&& forall|i: int| 0 < i < files.len() ==> #[trigger] file_follows(files, i)
    &&& forall|i: int, j: int|
        0 <= i < j < files.len() ==> (#[trigger] files[i]).path@ != (#[trigger] files[j]).path@
    &&& forall|i: int|
        0 <= i < files.len() ==> {
            let f = #[trigger] files[i];
            &&& f.first_seen_at <= f.last_seen_at
            &&& f.is_deleted ==> !f.is_staged && f.cooloff_until is None
            &&& f.is_staged == (slots[i] is Some)
        }
    &&& forall|i: int|
        0 <= i < slots.len() && (#[trigger] slots[i]) is Some ==> {
            let r = slots[i]->0;
            &&& r.file_id == files[i].id->0
            &&& 0 < r.id < i64::MAX
            &&& r.expires_at matches Some(e) ==> e >= r.staged_at
        }
    &&& forall|i: int, j: int|
        0 <= i < j < slots.len() && (#[trigger] slots[i]) is Some && (#[trigger] slots[j]) is Some
            ==> slots[i]->0.id != slots[j]->0.id
}

/// The actions can make up a catalog: each has an identifier above zero
/// and below the largest number and says what a record must say, and the
/// identifiers ascend.
pub open spec fn actions_fit(actions: Seq<Action>) -> bool {
    &&& forall|i: int|
        0 <= i < actions.len() ==> (#[trigger] actions[i]).id is Some && 0 < actions[i].id->0
            < i64::MAX && action_complete(actions[i])
    &&& forall|i: int| 0 < i < actions.len() ==> #[trigger] action_follows(actions, i)
}

/// The file entry at position `i` has a larger identifier than the one
/// before it.
pub open spec fn file_follows(files: Seq<File>, i: int) -> bool {
    files[i - 1].id->0 < files[i].id->0
}

/// The action at position `i` has a larger identifier than the one before
/// it.
pub open spec fn action_follows(actions: Seq<Action>, i: int) -> bool {
    actions[i - 1].id->0 < actions[i].id->0
}

/// The root at position `i` has a larger identifier than the one before
/// it.
pub open spec fn root_follows(roots: Seq<WatchedRoot>, i: int) -> bool {
    roots[i - 1].id < roots[i].id
}

/// The number at position `i` is larger than the one before it.
pub open spec fn number_follows(ids: Seq<int>, i: int) -> bool {
    ids[i - 1] < ids[i]
}

/// The roots can make up a catalog: each has an identifier above zero and
/// below the largest number, the identifiers ascend, and no path occurs
/// twice.
pub open spec fn roots_fit(roots: Seq<WatchedRoot>) -> bool {
    &&& forall|i: int| 0 <= i < roots.len() ==> 0 < (#[trigger] roots[i]).id < i64::MAX
    &&& forall|i: int| 0 < i < roots.len() ==> #[trigger] root_follows(roots, i)
    &&& forall|i: int, j: int|
        0 <= i < j < roots.len() ==> (#[trigger] roots[i]).path@ != (#[trigger] roots[j]).path@
}

/// The parts can make up a catalog.
pub open spec fn parts_ok(
    files: Seq<File>,
    slots: Seq<Option<StagedFileRecord>>,
    actions: Seq<Action>,
    roots: Seq<WatchedRoot>,
    prefs: Seq<Preference>,
) -> bool {
    files_fit(files, slots) && actions_fit(actions) && roots_fit(roots) && prefs_ok(prefs)
}

/// Numbers that ascend from one to the next ascend from each to every
/// later one.
pub proof fn lemma_ascending(ids: Seq<int>)
    requires
        forall|i: int| 0 < i < ids.len() ==> #[trigger] number_follows(ids, i),
    ensures
        forall|i: int, j: int| 0 <= i < j < ids.len() ==> #[trigger] ids[i] < #[trigger] ids[j],
    decreases ids.len(),
{
    if ids.len() > 1 {
        let shorter = ids.drop_last();
        assert forall|i: int| 0 < i < shorter.len() implies #[trigger] number_follows(
            shorter,
            i,
        ) by {
            assert(number_follows(ids, i));
        }
        lemma_ascending(shorter);
        let n = ids.len() as int;
        assert(number_follows(ids, n - 1));
        assert forall|i: int, j: int| 0 <= i < j < ids.len() implies #[trigger] ids[i]
            < #[trigger] ids[j] by {
            if j < n - 1 {
                assert(shorter[i] < shorter[j]);
            } else if i < n - 2 {
                assert(shorter[i] < shorter[n - 2]);
            }
        }
    }
}

/// Every record in the slots has an identifier below the one after the
/// largest.
pub proof fn lemma_next_after_slots(slots: Seq<Option<StagedFileRecord>>)
    ensures
        next_after_slots(slots) >= 1,
        forall|i: int|
            0 <= i < slots.len() && (#[trigger] slots[i]) is Some ==> slots[i]->0.id
                < next_after_slots(slots),
    decreases slots.len(),
{
    if slots.len() > 0 {
        let shorter = slots.drop_last();
        lemma_next_after_slots(shorter);
        assert forall|i: int| 0 <= i < slots.len() && (#[trigger] slots[i]) is Some implies slots[i]->0.id
            < next_after_slots(slots) by {
            if i < slots.len() - 1 {
                assert(shorter[i] == slots[i]);
            }
        }
    }
}

fn files_are_fit(files: &Vec<File>, slots: &Vec<Option<StagedFileRecord>>) -> (r: bool)
    ensures
        r == files_fit(files@, slots@),
{
    if slots.len() != files.len() {
        return false;
    }
    let mut i: usize = 0;
    while i < files.len()
        invariant
            i <= files.len(),
            slots@.len() == files@.len(),
            files_fit(files@.take(i as int), slots@.take(i as int)),
        decreases files.len() - i,
    {
        let f = &files[i];
        let id = match f.id {
            Some(id) => id,
            None => {
                return false;
            },
        };
        if id <= 0 || id == i64::MAX {
            return false;
        }
        if i > 0 {
            let prev = match files[i - 1].id {
                Some(p) => p,
                None => 0,
            };
            if prev >= id {
                assert(!file_follows(files@, i as int));
                return false;
            }
        }
        if f.first_seen_at > f.last_seen_at || (f.is_deleted && (f.is_staged
            || f.cooloff_until.is_some())) || f.is_staged != slots[i].is_some() {
            return false;
        }
        match &slots[i] {
            Some(r) => {
                let expiry_ok = match r.expires_at {
                    Some(e) => e >= r.staged_at,
                    None => true,
                };
                if r.file_id != id || r.id <= 0 || r.id == i64::MAX || !expiry_ok {
                    return false;
                }
            },
            None => {},
        }
        let mut j: usize = 0;
        while j < i
            invariant
                j <= i < files.len(),
                slots@.len() == files@.len(),
                forall|a: int| 0 <= a < j ==> (#[trigger] files@[a]).path@ != files@[i as int].path@,
                forall|a: int|
                    0 <= a < j && (#[trigger] slots@[a]) is Some && slots@[i as int] is Some
                        ==> slots@[a]->0.id != slots@[i as int]->0.id,
            decreases i - j,
        {
            if files[j].path == files[i].path {
                return false;
            }
            let clash = match (&slots[j], &slots[i]) {
                (Some(a), Some(b)) => a.id == b.id,
                _ => false,
            };
            if clash {
                return false;
            }
            j = j + 1;
        }
        proof {
            let fs = files@.take(i + 1);
            let ss = slots@.take(i + 1);
            let fp = files@.take(i as int);
            let sp = slots@.take(i as int);
            assert forall|x: int| 0 <= x < fs.len() implies (#[trigger] fs[x]).id is Some && 0
                < fs[x].id->0 < i64::MAX by {
                if x < i {
                    assert(fp[x] == fs[x]);
                }
            }
            assert forall|x: int| 0 < x < fs.len() implies #[trigger] file_follows(fs, x) by {
                if x < i {
                    assert(file_follows(fp, x));
                }
            }
            assert forall|x: int, y: int| 0 <= x < y < fs.len() implies (#[trigger] fs[x]).path@
                != (#[trigger] fs[y]).path@ by {
                if y < i {
                    assert(fp[x] == fs[x] && fp[y] == fs[y]);
                }
            }
            assert forall|x: int| 0 <= x < fs.len() implies {
                let f = #[trigger] fs[x];
                &&& f.first_seen_at <= f.last_seen_at
                &&& f.is_deleted ==> !f.is_staged && f.cooloff_until is None
                &&& f.is_staged == (ss[x] is Some)
            } by {
                if x < i {
                    assert(fp[x] == fs[x] && sp[x] == ss[x]);
                }
            }
            assert forall|x: int| 0 <= x < ss.len() && (#[trigger] ss[x]) is Some implies {
                let r = ss[x]->0;
                &&& r.file_id == fs[x].id->0
                &&& 0 < r.id < i64::MAX
                &&& r.expires_at matches Some(e) ==> e >= r.staged_at
            } by {
                if x < i {
                    assert(fp[x] == fs[x] && sp[x] == ss[x]);
                }
            }
            assert forall|x: int, y: int|
                0 <= x < y < ss.len() && (#[trigger] ss[x]) is Some && (#[trigger] ss[y])
                    is Some implies ss[x]->0.id != ss[y]->0.id by {
                if y < i {
                    assert(sp[x] == ss[x] && sp[y] == ss[y]);
                }
            }
        }
        i = i + 1;
    }
    proof {
        assert(files@.take(files@.len() as int) == files@);
        assert(slots@.take(slots@.len() as int) == slots@);
    }
    true
}

fn actions_are_fit(actions: &Vec<Action>) -> (r: bool)
    ensures
        r == actions_fit(actions@),
{
    let mut i: usize = 0;
    while i < actions.len()
        invariant
            i <= actions.len(),
            actions_fit(actions@.take(i as int)),
        decreases actions.len() - i,
    {
        let id = match actions[i].id {
            Some(id) => id,
            None => {
                return false;
            },
        };
        if id <= 0 || id == i64::MAX {
            return false;
        }
        if !says_enough(
            actions[i].action,
            &actions[i].batch_id,
            &actions[i].src_path,
            &actions[i].dst_path,
        ) {
            assert(!action_complete(actions@[i as int]));
            return false;
        }
        if i > 0 {
            let prev = match actions[i - 1].id {
                Some(p) => p,
                None => 0,
            };
            if prev >= id {
                assert(!action_follows(actions@, i as int));
                return false;
            }
        }
        proof {
            let a = actions@.take(i + 1);
            let p = actions@.take(i as int);
            assert forall|x: int| 0 <= x < a.len() implies (#[trigger] a[x]).id is Some && 0
                < a[x].id->0 < i64::MAX by {
                if x < i {
                    assert(p[x] == a[x]);
                }
            }
            assert forall|x: int| 0 < x < a.len() implies #[trigger] action_follows(a, x) by {
                if x < i {
                    assert(action_follows(p, x));
                }
            }
        }
        i = i + 1;
    }
    proof {
        assert(actions@.take(actions@.len() as int) == actions@);
    }
    true
}

fn roots_are_fit(roots: &Vec<WatchedRoot>) -> (r: bool)
    ensures
        r == roots_fit(roots@),
{
    let mut i: usize = 0;
    while i < roots.len()
        invariant
            i <= roots.len(),
            roots_fit(roots@.take(i as int)),
        decreases roots.len() - i,
    {
        let id = roots[i].id;
        if id <= 0 || id == i64::MAX {
            return false;
        }
        if i > 0 && roots[i - 1].id >= id {
            assert(!root_follows(roots@, i as int));
            return false;
        }
        let mut j: usize = 0;
        while j < i
            invariant
                j <= i < roots.len(),
                forall|a: int| 0 <= a < j ==> (#[trigger] roots@[a]).path@ != roots@[i as int].path@,
            decreases i - j,
        {
            if roots[j].path == roots[i].path {
                return false;
            }
            j = j + 1;
        }
        proof {
            let a = roots@.take(i + 1);
            let p = roots@.take(i as int);
            assert forall|x: int| 0 <= x < a.len() implies 0 < (#[trigger] a[x]).id < i64::MAX by {
                if x < i {
                    assert(p[x] == a[x]);
                }
            }
            assert forall|x: int| 0 < x < a.len() implies #[trigger] root_follows(a, x) by {
                if x < i {
                    assert(root_follows(p, x));
                }
            }
            assert forall|x: int, y: int| 0 <= x < y < a.len() implies (#[trigger] a[x]).path@
                != (#[trigger] a[y]).path@ by {
                if y < i {
                    assert(p[x] == a[x] && p[y] == a[y]);
                }
            }
        }
        i = i + 1;
    }
    proof {
        assert(roots@.take(roots@.len() as int) == roots@);
    }
    true
}

fn prefs_are_fit(prefs: &Vec<Preference>) -> (r: bool)
    ensures
        r == prefs_ok(prefs@),
{
    let mut i: usize = 0;
    while i < prefs.len()
        invariant
            i <= prefs.len(),
            forall|a: int, b: int|
                0 <= a < b < i ==> (#[trigger] prefs@[a]).key@ != (#[trigger] prefs@[b]).key@,
        decreases prefs.len() - i,
    {
        let mut j: usize = 0;
        while j < i
            invariant
                j <= i < prefs.len(),
                forall|a: int| 0 <= a < j ==> (#[trigger] prefs@[a]).key@ != prefs@[i as int].key@,
            decreases i - j,
        {
            if prefs[j].key == prefs[i].key {
                return false;
            }
            j = j + 1;
        }
        i = i + 1;
    }
    true
}

fn next_slot_id(slots: &Vec<Option<StagedFileRecord>>) -> (next: i64)
    requires
        forall|i: int|
            0 <= i < slots@.len() && (#[trigger] slots@[i]) is Some ==> 0 < slots@[i]->0.id
                < i64::MAX,
    ensures
        next == next_after_slots(slots@),
{
    let mut next: i64 = 1;
    let mut i: usize = 0;
    while i < slots.len()
        invariant
            i <= slots.len(),
            1 <= next,
            next == next_after_slots(slots@.take(i as int)),
            forall|k: int|
                0 <= k < slots@.len() && (#[trigger] slots@[k]) is Some ==> 0 < slots@[k]->0.id
                    < i64::MAX,
        decreases slots.len() - i,
    {
        proof {
            assert(slots@.take(i + 1).drop_last() == slots@.take(i as int));
            assert(slots@.take(i + 1).last() == slots@[i as int]);
        }
        match &slots[i] {
            Some(r) => {
                if r.id >= next {
                    next = r.id + 1;
                }
            },
            None => {},
        }
        i = i + 1;
    }
    proof {
        assert(slots@.take(slots@.len() as int) == slots@);
    }
    next
}

impl Database {
    /// The file entries, by ascending identifier.
    pub fn all_files(&self) -> (out: Vec<File>)
        ensures
            out@ == self.files(),
    {
        duplicate_all(&self.files)
    }

    /// For each file entry, at the same position, its staged record if it
    /// has one.
    pub fn all_slots(&self) -> (out: Vec<Option<StagedFileRecord>>)
        ensures
            out@ == self.slots(),
    {
        duplicate_all(&self.slots)
    }

    /// The recorded actions, in the order in which they were recorded.
    pub fn all_actions(&self) -> (out: Vec<Action>)
        ensures
            out@ == self.actions(),
    {
        duplicate_all(&self.actions)
    }

    /// The watched roots, in the order in which they were registered.
    pub fn all_roots(&self) -> (out: Vec<WatchedRoot>)
        ensures
            out@ == self.roots(),
    {
        duplicate_all(&self.roots)
    }

    /// The catalog made of the parts, where they can make one up; it then
    /// is consistent. File entries come with their staged slots, position
    /// by position.
    pub fn from_parts(
        files: Vec<File>,
        slots: Vec<Option<StagedFileRecord>>,
        actions: Vec<Action>,
        roots: Vec<WatchedRoot>,
        prefs: Vec<Preference>,
    ) -> (out: Option<Database>)
        ensures
            out is Some <==> parts_ok(files@, slots@, actions@, roots@, prefs@),
            out matches Some(db) ==> {
                &&& db.wf()
                &&& db.files() == files@
                &&& db.slots() == slots@
                &&& db.actions() == actions@
                &&& db.roots() == roots@
                &&& db.prefs() == prefs@
                &&& db.next_file_id() == (if files@.len() == 0 {
                    1
                } else {
                    files@.last().id->0 + 1
                })
                &&& db.next_staged_id() == next_after_slots(slots@)
                &&& db.next_action_id() == (if actions@.len() == 0 {
                    1
                } else {
                    actions@.last().id->0 + 1
                })
                &&& db.next_root_id() == (if roots@.len() == 0 {
                    1
                } else {
                    roots@.last().id + 1
                })
            },
    {
        if !files_are_fit(&files, &slots) || !actions_are_fit(&actions) || !roots_are_fit(&roots)
            || !prefs_are_fit(&prefs) {
            return None;
        }
        let next_file_id: i64 = if files.len() == 0 {
            1
        } else {
            match files[files.len() - 1].id {
                Some(id) => id + 1,
                None => 1,
            }
        };
        let next_staged_id = next_slot_id(&slots);
        let next_action_id: i64 = if actions.len() == 0 {
            1
        } else {
            match actions[actions.len() - 1].id {
                Some(id) => id + 1,
                None => 1,
            }
        };
        let next_root_id: i64 = if roots.len() == 0 {
            1
        } else {
            roots[roots.len() - 1].id + 1
        };
        proof {
            lemma_next_after_slots(slots@);
            let file_ids = Seq::new(files@.len(), |i: int| files@[i].id->0 as int);
            assert forall|i: int| 0 < i < file_ids.len() implies #[trigger] number_follows(
                file_ids,
                i,
            ) by {
                assert(file_follows(files@, i));
            }
            lemma_ascending(file_ids);
            assert forall|i: int, j: int| 0 <= i < j < files@.len() implies (
            #[trigger] files@[i]).id->0 < (#[trigger] files@[j]).id->0 by {
                assert(file_ids[i] < file_ids[j]);
            }
            let action_ids = Seq::new(actions@.len(), |i: int| actions@[i].id->0 as int);
            assert forall|i: int| 0 < i < action_ids.len() implies #[trigger] number_follows(
                action_ids,
                i,
            ) by {
                assert(action_follows(actions@, i));
            }
            lemma_ascending(action_ids);
            assert forall|i: int, j: int| 0 <= i < j < actions@.len() implies (
            #[trigger] actions@[i]).id->0 < (#[trigger] actions@[j]).id->0 by {
                assert(action_ids[i] < action_ids[j]);
            }
            let root_ids = Seq::new(roots@.len(), |i: int| roots@[i].id as int);
            assert forall|i: int| 0 < i < root_ids.len() implies #[trigger] number_follows(
                root_ids,
                i,
            ) by {
                assert(root_follows(roots@, i));
            }
            lemma_ascending(root_ids);
            assert forall|i: int, j: int| 0 <= i < j < roots@.len() implies (
            #[trigger] roots@[i]).id < (#[trigger] roots@[j]).id by {
                assert(root_ids[i] < root_ids[j]);
            }
            assert forall|x: int| 0 <= x < files@.len() implies row_ok(
                #[trigger] files@[x],
                slots@[x],
                next_file_id,
                next_staged_id,
            ) by {
                if x + 1 < files@.len() {
                    assert(files@[x].id->0 < files@[files@.len() - 1].id->0);
                }
            }
            assert forall|x: int| 0 <= x < actions@.len() implies (#[trigger] actions@[x]).id
                is Some && 0 < actions@[x].id->0 < next_action_id by {
                if x + 1 < actions@.len() {
                    assert(actions@[x].id->0 < actions@[actions@.len() - 1].id->0);
                }
            }
            assert forall|x: int| 0 <= x < roots@.len() implies 0 < (#[trigger] roots@[x]).id
                < next_root_id by {
                if x + 1 < roots@.len() {
                    assert(roots@[x].id < roots@[roots@.len() - 1].id);
                }
            }
        }
        Some(
            Database {
                files,
                slots,
                actions,
                roots,
                prefs,
                next_file_id,
                next_staged_id,
                next_action_id,
                next_root_id,
            },
        )
    }
}

} // verus!
