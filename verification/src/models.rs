//! The records of the index.
//!
//! A point in time is a number of milliseconds since the Unix epoch, UTC.

use crate::text::{chars_of, join2, same_chars};
use vstd::prelude::*;
use vstd::string::StringExecFns;

verus! {

/// A value that can be copied field by field.
pub trait Duplicate: Sized {
    fn duplicate(&self) -> (r: Self)
        ensures
            r == *self,
    ;
}

impl Duplicate for String {
    fn duplicate(&self) -> (r: Self) {
        self.clone()
    }
}

impl Duplicate for i64 {
    fn duplicate(&self) -> (r: Self) {
        *self
    }
}

impl<T: Duplicate> Duplicate for Option<T> {
    fn duplicate(&self) -> (r: Self) {
        match self {
            Some(v) => Some(v.duplicate()),
            None => None,
        }
    }
}

/// A copy of `v`, element by element.
pub fn duplicate_all<T: Duplicate>(v: &Vec<T>) -> (r: Vec<T>)
    ensures
        r@ == v@,
{
    let mut r: Vec<T> = Vec::new();
    let mut i: usize = 0;
    while i < v.len()
        invariant
            i <= v.len(),
            r@ == v@.take(i as int),
        decreases v.len() - i,
    {
        r.push(v[i].duplicate());
        i = i + 1;
        assert(v@.take(i as int) == v@.take(i - 1).push(v@[i - 1]));
    }
    assert(v@.take(v@.len() as int) == v@);
    r
}

/// A file entry of the index.
#[derive(Debug, Clone)]
pub struct File {
    pub id: Option<i64>,
    pub path: String,
    pub parent_dir: String,
    pub mime: Option<String>,
    pub size_bytes: u64,
    pub created_at: i64,
    pub modified_at: Option<i64>,
    pub accessed_at: Option<i64>,
    pub last_opened_at: Option<i64>,
    pub partial_sha1: Option<String>,
    pub sha1: Option<String>,
    pub first_seen_at: i64,
    pub last_seen_at: i64,
    pub is_deleted: bool,
    pub is_staged: bool,
    pub cooloff_until: Option<i64>,
}

impl Duplicate for File {
    fn duplicate(&self) -> (r: Self) {
        File {
            id: self.id,
            path: self.path.clone(),
            parent_dir: self.parent_dir.clone(),
            mime: self.mime.duplicate(),
            size_bytes: self.size_bytes,
            created_at: self.created_at,
            modified_at: self.modified_at,
            accessed_at: self.accessed_at,
            last_opened_at: self.last_opened_at,
            partial_sha1: self.partial_sha1.duplicate(),
            sha1: self.sha1.duplicate(),
            first_seen_at: self.first_seen_at,
            last_seen_at: self.last_seen_at,
            is_deleted: self.is_deleted,
            is_staged: self.is_staged,
            cooloff_until: self.cooloff_until,
        }
    }
}

/// The kind of a file-level operation.
#[derive(Debug, Clone, Copy, PartialEq, Eq, Structural)]
pub enum ActionType {
    Archive,
    Delete,
    Restore,
}

impl ActionType {
    /// The name under which the kind is stored and shown.
    pub open spec fn name(self) -> Seq<char> {
        match self {
            ActionType::Archive => "archive"@,
            ActionType::Delete => "delete"@,
            ActionType::Restore => "restore"@,
        }
    }

    /// The name under which the kind is stored and shown.
    pub fn to_string(&self) -> (out: String)
        ensures
            out@ == self.name(),
    {
        match self {
            ActionType::Archive => String::from_str("archive"),
            ActionType::Delete => String::from_str("delete"),
            ActionType::Restore => String::from_str("restore"),
        }
    }

    /// The kind with the given name; any other text is an error that
    /// quotes it.
    pub fn from_str(s: &str) -> (out: Result<ActionType, String>)
        ensures
            match out {
                Ok(kind) => kind.name() == s@,
                Err(message) => {
                    &&& s@ != "archive"@
                    &&& s@ != "delete"@
                    &&& s@ != "restore"@
                    &&& message@ == "Invalid action type: "@ + s@
                },
            },
    {
        let chars = chars_of(s);
        if same_chars(&chars, &chars_of("archive")) {
            Ok(ActionType::Archive)
        } else if same_chars(&chars, &chars_of("delete")) {
            Ok(ActionType::Delete)
        } else if same_chars(&chars, &chars_of("restore")) {
            Ok(ActionType::Restore)
        } else {
            Err(join2("Invalid action type: ", s))
        }
    }
}

/// One file-level operation, as recorded.
#[derive(Debug, Clone)]
pub struct Action {
    pub id: Option<i64>,
    pub file_id: i64,
    pub action: ActionType,
    pub batch_id: Option<String>,
    pub src_path: Option<String>,
    pub dst_path: Option<String>,
    pub origin: Option<String>,
    pub note: Option<String>,
    pub created_at: i64,
}

impl Duplicate for Action {
    fn duplicate(&self) -> (r: Self) {
        Action {
            id: self.id,
            file_id: self.file_id,
            action: self.action,
            batch_id: self.batch_id.duplicate(),
            src_path: self.src_path.duplicate(),
            dst_path: self.dst_path.duplicate(),
            origin: self.origin.duplicate(),
            note: self.note.duplicate(),
            created_at: self.created_at,
        }
    }
}

/// A preference: a key and its value.
#[derive(Debug, Clone)]
pub struct Preference {
    pub key: String,
    pub value: String,
}

impl Duplicate for Preference {
    fn duplicate(&self) -> (r: Self) {
        Preference { key: self.key.clone(), value: self.value.clone() }
    }
}

/// A point of a time series: a name, a value in thousandths, and where
/// the value comes from.
#[derive(Debug, Clone)]
pub struct Metric {
    pub id: Option<i64>,
    pub metric: String,
    /// The value, in thousandths.
    pub value_milli: i64,
    pub context: Option<String>,
    pub created_at: i64,
}

/// A point that is to be recorded.
#[derive(Debug, Clone)]
pub struct NewMetric {
    pub metric: String,
    /// The value, in thousandths.
    pub value_milli: i64,
    pub context: Option<String>,
}

impl Duplicate for Metric {
    fn duplicate(&self) -> (r: Self) {
        Metric {
            id: self.id,
            metric: self.metric.clone(),
            value_milli: self.value_milli,
            context: self.context.duplicate(),
            created_at: self.created_at,
        }
    }
}

/// A file entry with the latest operation on it, if any.
#[derive(Debug, Clone)]
pub struct FileWithAction {
    pub file: File,
    pub latest_action: Option<Action>,
}

/// Counts of operations over one week.
#[derive(Debug, Clone)]
pub struct WeeklyTotals {
    pub week_start: i64,
    pub total_files: i64,
    pub archived_files: i64,
    pub deleted_files: i64,
    pub restored_files: i64,
}

/// How many files have a given age in days.
#[derive(Debug, Clone)]
pub struct FileAgeStats {
    pub age_days: i64,
    pub count: i64,
}

/// What a scan observed of one file.
#[derive(Debug, Clone)]
pub struct NewFile {
    pub path: String,
    pub parent_dir: String,
    pub mime: Option<String>,
    pub size_bytes: u64,
    pub created_at: Option<i64>,
    pub modified_at: Option<i64>,
    pub accessed_at: Option<i64>,
    pub partial_sha1: Option<String>,
    pub sha1: Option<String>,
}

/// An operation to record.
#[derive(Debug, Clone)]
pub struct NewAction {
    pub file_id: i64,
    pub action: ActionType,
    pub batch_id: Option<String>,
    pub src_path: Option<String>,
    pub dst_path: Option<String>,
    pub origin: Option<String>,
    pub note: Option<String>,
}

/// A directory that the user registered for scanning.
#[derive(Debug, Clone)]
pub struct WatchedRoot {
    pub id: i64,
    pub path: String,
    pub created_at: i64,
}

impl Duplicate for WatchedRoot {
    fn duplicate(&self) -> (r: Self) {
        WatchedRoot { id: self.id, path: self.path.clone(), created_at: self.created_at }
    }
}

/// Where a staged record stands.
#[derive(Debug, Clone, Copy, PartialEq, Eq, Structural)]
pub enum StagedStatus {
    Staged,
    Restored,
    Emptied,
}

impl StagedStatus {
    /// The name under which the status is stored and shown.
    pub open spec fn name(self) -> Seq<char> {
        match self {
            StagedStatus::Staged => "staged"@,
            StagedStatus::Restored => "restored"@,
            StagedStatus::Emptied => "emptied"@,
        }
    }

    /// The name under which the status is stored and shown.
    pub fn to_string(&self) -> (out: String)
        ensures
            out@ == self.name(),
    {
        match self {
            StagedStatus::Staged => String::from_str("staged"),
            StagedStatus::Restored => String::from_str("restored"),
            StagedStatus::Emptied => String::from_str("emptied"),
        }
    }

    /// The status with the given name, if there is one.
    pub fn from_str(s: &str) -> (out: Option<StagedStatus>)
        ensures
            match out {
                Some(status) => status.name() == s@,
                None => s@ != "staged"@ && s@ != "restored"@ && s@ != "emptied"@,
            },
    {
        let chars = chars_of(s);
        if same_chars(&chars, &chars_of("staged")) {
            Some(StagedStatus::Staged)
        } else if same_chars(&chars, &chars_of("restored")) {
            Some(StagedStatus::Restored)
        } else if same_chars(&chars, &chars_of("emptied")) {
            Some(StagedStatus::Emptied)
        } else {
            None
        }
    }
}

/// The staged record of a file.
#[derive(Debug, Clone)]
pub struct StagedFileRecord {
    pub id: i64,
    pub file_id: i64,
    pub staged_at: i64,
    pub expires_at: Option<i64>,
    pub batch_id: Option<String>,
    pub status: StagedStatus,
    pub note: Option<String>,
}

impl Duplicate for StagedFileRecord {
    fn duplicate(&self) -> (r: Self) {
        StagedFileRecord {
            id: self.id,
            file_id: self.file_id,
            staged_at: self.staged_at,
            expires_at: self.expires_at,
            batch_id: self.batch_id.duplicate(),
            status: self.status,
            note: self.note.duplicate(),
        }
    }
}

/// A staged record to store.
#[derive(Debug, Clone)]
pub struct NewStagedFile {
    pub file_id: i64,
    pub staged_at: i64,
    pub expires_at: Option<i64>,
    pub batch_id: Option<String>,
    pub status: StagedStatus,
    pub note: Option<String>,
}

} // verus!
