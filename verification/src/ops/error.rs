//! Errors of the operations engine and what the user is told about them.

use crate::text::join2;
use vstd::prelude::*;
use vstd::string::StringExecFns;

verus! {

/// A fault of the operations engine, with a human-readable detail.
#[derive(Debug, Clone)]
pub enum OpsError {
    ArchiveError(String),
    DeleteError(String),
    UndoError(String),
    SpaceError(String),
    PermissionError(String),
    FileNotFound(String),
    InvalidPath(String),
    CrossVolumeError(String),
    BatchError(String),
    DatabaseError(String),
    GaugeError(String),
}

pub type OpsResult<T> = Result<T, OpsError>;

/// What the user is shown for an error.
pub struct ErrorMessage {
    pub title: String,
    pub message: String,
    pub suggestion: Option<String>,
    pub recoverable: bool,
}

/// What to do next after an error.
#[derive(Debug, Clone, Copy, PartialEq, Eq, Structural)]
pub enum RecoveryStrategy {
    Retry,
    Skip,
    Abort,
    Fallback,
}

/// The kind of an I/O failure, as far as the engine tells kinds apart.
#[derive(Debug, Clone, Copy, PartialEq, Eq, Structural)]
pub enum IoFailureKind {
    PermissionDenied,
    NotFound,
    InvalidInput,
    Other,
}

impl OpsError {
    /// The detail carried by the error.
    pub open spec fn detail(self) -> Seq<char> {
        match self {
            OpsError::ArchiveError(m) => m@,
            OpsError::DeleteError(m) => m@,
            OpsError::UndoError(m) => m@,
            OpsError::SpaceError(m) => m@,
            OpsError::PermissionError(m) => m@,
            OpsError::FileNotFound(m) => m@,
            OpsError::InvalidPath(m) => m@,
            OpsError::CrossVolumeError(m) => m@,
            OpsError::BatchError(m) => m@,
            OpsError::DatabaseError(m) => m@,
            OpsError::GaugeError(m) => m@,
        }
    }

    /// The label that precedes the detail in the display form.
    pub open spec fn label(self) -> Seq<char> {
        match self {
            OpsError::ArchiveError(_) => "Archive Error: "@,
            OpsError::DeleteError(_) => "Delete Error: "@,
            OpsError::UndoError(_) => "Undo Error: "@,
            OpsError::SpaceError(_) => "Space Error: "@,
            OpsError::PermissionError(_) => "Permission Error: "@,
            OpsError::FileNotFound(_) => "File Not Found: "@,
            OpsError::InvalidPath(_) => "Invalid Path: "@,
            OpsError::CrossVolumeError(_) => "Cross Volume Error: "@,
            OpsError::BatchError(_) => "Batch Error: "@,
            OpsError::DatabaseError(_) => "Database Error: "@,
            OpsError::GaugeError(_) => "Gauge Error: "@,
        }
    }

    /// The fixed title shown for this kind of error.
    pub open spec fn title(self) -> Seq<char> {
        match self {
            OpsError::ArchiveError(_) => "Archive Failed"@,
            OpsError::DeleteError(_) => "Delete Failed"@,
            OpsError::UndoError(_) => "Undo Failed"@,
            OpsError::SpaceError(_) => "Insufficient Space"@,
            OpsError::PermissionError(_) => "Permission Denied"@,
            OpsError::FileNotFound(_) => "File Not Found"@,
            OpsError::InvalidPath(_) => "Invalid Path"@,
            OpsError::CrossVolumeError(_) => "Cross Volume Operation"@,
            OpsError::BatchError(_) => "Batch Operation Failed"@,
            OpsError::DatabaseError(_) => "Database Error"@,
            OpsError::GaugeError(_) => "Gauge Error"@,
        }
    }

    /// The words that precede the detail in the body shown to the user.
    pub open spec fn body_lead(self) -> Seq<char> {
        match self {
            OpsError::ArchiveError(_) => "Unable to archive files: "@,
            OpsError::DeleteError(_) => "Unable to delete files: "@,
            OpsError::UndoError(_) => "Unable to undo operation: "@,
            OpsError::SpaceError(_) => "Not enough disk space: "@,
            OpsError::PermissionError(_) => "Access denied: "@,
            OpsError::FileNotFound(_) => "File not found: "@,
            OpsError::InvalidPath(_) => "Invalid file path: "@,
            OpsError::CrossVolumeError(_) => "Cannot move across volumes: "@,
            OpsError::BatchError(_) => "Batch operation failed: "@,
            OpsError::DatabaseError(_) => "Database operation failed: "@,
            OpsError::GaugeError(_) => "Gauge calculation failed: "@,
        }
    }

    /// The fixed advice shown for this kind of error.
    pub open spec fn advice(self) -> Seq<char> {
        match self {
            OpsError::ArchiveError(_) => "Check disk space and permissions, then try again."@,
            OpsError::DeleteError(_) => "Check file permissions and try again."@,
            OpsError::UndoError(_) =>
                "Some files may have been moved or deleted outside the application."@,
            OpsError::SpaceError(_) => "Free up disk space or choose a different location."@,
            OpsError::PermissionError(_) => "Run as administrator or check file permissions."@,
            OpsError::FileNotFound(_) => "The file may have been moved or deleted."@,
            OpsError::InvalidPath(_) => "Check the file path and try again."@,
            OpsError::CrossVolumeError(_) =>
                "The operation will copy and delete instead of moving."@,
            OpsError::BatchError(_) =>
                "Some files in the batch may have failed. Check individual file status."@,
            OpsError::DatabaseError(_) => "Try restarting the application."@,
            OpsError::GaugeError(_) => "Try refreshing the gauge data."@,
        }
    }

    /// Whether the user can recover from this kind of error within the
    /// command: not from a lack of space, a failed undo or a missing file;
    /// from every other kind.
    pub open spec fn recoverable(self) -> bool {
        !(self is SpaceError || self is UndoError || self is FileNotFound)
    }

    /// The strategy advised for this kind of error.
    pub open spec fn strategy(self) -> RecoveryStrategy {
        match self {
            OpsError::SpaceError(_) => RecoveryStrategy::Abort,
            OpsError::FileNotFound(_) => RecoveryStrategy::Skip,
            OpsError::CrossVolumeError(_) => RecoveryStrategy::Fallback,
            OpsError::BatchError(_) => RecoveryStrategy::Skip,
            _ => RecoveryStrategy::Retry,
        }
    }

    /// The display form: the kind's label, then the detail.
    pub fn to_string(&self) -> (out: String)
        ensures
            out@ == self.label() + self.detail(),
    {
        match self {
            OpsError::ArchiveError(m) => join2("Archive Error: ", m.as_str()),
            OpsError::DeleteError(m) => join2("Delete Error: ", m.as_str()),
            OpsError::UndoError(m) => join2("Undo Error: ", m.as_str()),
            OpsError::SpaceError(m) => join2("Space Error: ", m.as_str()),
            OpsError::PermissionError(m) => join2("Permission Error: ", m.as_str()),
            OpsError::FileNotFound(m) => join2("File Not Found: ", m.as_str()),
            OpsError::InvalidPath(m) => join2("Invalid Path: ", m.as_str()),
            OpsError::CrossVolumeError(m) => join2("Cross Volume Error: ", m.as_str()),
            OpsError::BatchError(m) => join2("Batch Error: ", m.as_str()),
            OpsError::DatabaseError(m) => join2("Database Error: ", m.as_str()),
            OpsError::GaugeError(m) => join2("Gauge Error: ", m.as_str()),
        }
    }

    /// The title, body, advice and recoverable flag shown to the user.
    pub fn to_user_message(&self) -> (out: ErrorMessage)
        ensures
            out.title@ == self.title(),
            out.message@ == self.body_lead() + self.detail(),
            out.suggestion matches Some(s) && s@ == self.advice(),
            out.recoverable == self.recoverable(),
    {
        match self {
            OpsError::ArchiveError(msg) => ErrorMessage {
                title: String::from_str("Archive Failed"),
                message: join2("Unable to archive files: ", msg.as_str()),
                suggestion: Some(
                    String::from_str("Check disk space and permissions, then try again."),
                ),
                recoverable: true,
            },
            OpsError::DeleteError(msg) => ErrorMessage {
                title: String::from_str("Delete Failed"),
                message: join2("Unable to delete files: ", msg.as_str()),
                suggestion: Some(String::from_str("Check file permissions and try again.")),
                recoverable: true,
            },
            OpsError::UndoError(msg) => ErrorMessage {
                title: String::from_str("Undo Failed"),
                message: join2("Unable to undo operation: ", msg.as_str()),
                suggestion: Some(
                    String::from_str(
                        "Some files may have been moved or deleted outside the application.",
                    ),
                ),
                recoverable: false,
            },
            OpsError::SpaceError(msg) => ErrorMessage {
                title: String::from_str("Insufficient Space"),
                message: join2("Not enough disk space: ", msg.as_str()),
                suggestion: Some(
                    String::from_str("Free up disk space or choose a different location."),
                ),
                recoverable: false,
            },
            OpsError::PermissionError(msg) => ErrorMessage {
                title: String::from_str("Permission Denied"),
                message: join2("Access denied: ", msg.as_str()),
                suggestion: Some(
                    String::from_str("Run as administrator or check file permissions."),
                ),
                recoverable: true,
            },
            OpsError::FileNotFound(msg) => ErrorMessage {
                title: String::from_str("File Not Found"),
                message: join2("File not found: ", msg.as_str()),
                suggestion: Some(String::from_str("The file may have been moved or deleted.")),
                recoverable: false,
            },
            OpsError::InvalidPath(msg) => ErrorMessage {
                title: String::from_str("Invalid Path"),
                message: join2("Invalid file path: ", msg.as_str()),
                suggestion: Some(String::from_str("Check the file path and try again.")),
                recoverable: true,
            },
            OpsError::CrossVolumeError(msg) => ErrorMessage {
                title: String::from_str("Cross Volume Operation"),
                message: join2("Cannot move across volumes: ", msg.as_str()),
                suggestion: Some(
                    String::from_str("The operation will copy and delete instead of moving."),
                ),
                recoverable: true,
            },
            OpsError::BatchError(msg) => ErrorMessage {
                title: String::from_str("Batch Operation Failed"),
                message: join2("Batch operation failed: ", msg.as_str()),
                suggestion: Some(
                    String::from_str(
                        "Some files in the batch may have failed. Check individual file status.",
                    ),
                ),
                recoverable: true,
            },
            OpsError::DatabaseError(msg) => ErrorMessage {
                title: String::from_str("Database Error"),
                message: join2("Database operation failed: ", msg.as_str()),
                suggestion: Some(String::from_str("Try restarting the application.")),
                recoverable: true,
            },
            OpsError::GaugeError(msg) => ErrorMessage {
                title: String::from_str("Gauge Error"),
                message: join2("Gauge calculation failed: ", msg.as_str()),
                suggestion: Some(String::from_str("Try refreshing the gauge data.")),
                recoverable: true,
            },
        }
    }

    /// Whether the user can recover from this error.
    pub fn is_recoverable(&self) -> (r: bool)
        ensures
            r == self.recoverable(),
    {
        self.to_user_message().recoverable
    }

    /// The advice shown for this error.
    pub fn get_suggestion(&self) -> (out: Option<String>)
        ensures
            out matches Some(s) && s@ == self.advice(),
    {
        self.to_user_message().suggestion
    }

    /// The error for an I/O failure of the given kind: a permission error,
    /// a missing file, an invalid path, or else an archive error, with the
    /// failure's own words after a fixed lead.
    pub fn from_io(kind: IoFailureKind, detail: &str) -> (out: OpsError)
        ensures
            match kind {
                IoFailureKind::PermissionDenied => out is PermissionError && out.detail()
                    == "Permission denied: "@ + detail@,
                IoFailureKind::NotFound => out is FileNotFound && out.detail()
                    == "File not found: "@ + detail@,
                IoFailureKind::InvalidInput => out is InvalidPath && out.detail()
                    == "Invalid path: "@ + detail@,
                IoFailureKind::Other => out is ArchiveError && out.detail() == "IO error: "@
                    + detail@,
            },
    {
        match kind {
            IoFailureKind::PermissionDenied => OpsError::PermissionError(
                join2("Permission denied: ", detail),
            ),
            IoFailureKind::NotFound => OpsError::FileNotFound(join2("File not found: ", detail)),
            IoFailureKind::InvalidInput => OpsError::InvalidPath(join2("Invalid path: ", detail)),
            IoFailureKind::Other => OpsError::ArchiveError(join2("IO error: ", detail)),
        }
    }

    /// The error for a failure reported by the store.
    pub fn from_store(detail: &str) -> (out: OpsError)
        ensures
            out is DatabaseError,
            out.detail() == "Database error: "@ + detail@,
    {
        OpsError::DatabaseError(join2("Database error: ", detail))
    }
}

pub fn archive_error(msg: &str) -> (out: OpsError)
    ensures
        out is ArchiveError,
        out.detail() == msg@,
{
    OpsError::ArchiveError(String::from_str(msg))
}

pub fn delete_error(msg: &str) -> (out: OpsError)
    ensures
        out is DeleteError,
        out.detail() == msg@,
{
    OpsError::DeleteError(String::from_str(msg))
}

pub fn undo_error(msg: &str) -> (out: OpsError)
    ensures
        out is UndoError,
        out.detail() == msg@,
{
    OpsError::UndoError(String::from_str(msg))
}

pub fn space_error(msg: &str) -> (out: OpsError)
    ensures
        out is SpaceError,
        out.detail() == msg@,
{
    OpsError::SpaceError(String::from_str(msg))
}

pub fn permission_error(msg: &str) -> (out: OpsError)
    ensures
        out is PermissionError,
        out.detail() == msg@,
{
    OpsError::PermissionError(String::from_str(msg))
}

pub fn file_not_found(msg: &str) -> (out: OpsError)
    ensures
        out is FileNotFound,
        out.detail() == msg@,
{
    OpsError::FileNotFound(String::from_str(msg))
}

pub fn invalid_path(msg: &str) -> (out: OpsError)
    ensures
        out is InvalidPath,
        out.detail() == msg@,
{
    OpsError::InvalidPath(String::from_str(msg))
}

pub fn cross_volume_error(msg: &str) -> (out: OpsError)
    ensures
        out is CrossVolumeError,
        out.detail() == msg@,
{
    OpsError::CrossVolumeError(String::from_str(msg))
}

pub fn batch_error(msg: &str) -> (out: OpsError)
    ensures
        out is BatchError,
        out.detail() == msg@,
{
    OpsError::BatchError(String::from_str(msg))
}

pub fn database_error(msg: &str) -> (out: OpsError)
    ensures
        out is DatabaseError,
        out.detail() == msg@,
{
    OpsError::DatabaseError(String::from_str(msg))
}

pub fn gauge_error(msg: &str) -> (out: OpsError)
    ensures
        out is GaugeError,
        out.detail() == msg@,
{
    OpsError::GaugeError(String::from_str(msg))
}

/// The strategy advised after `error`: abort when space ran out, skip a
/// missing file or a failed batch entry, fall back to copy-and-delete across
/// volumes, and retry everything else.
pub fn suggest_recovery_strategy(error: &OpsError) -> (out: RecoveryStrategy)
    ensures
        out == error.strategy(),
{
    match error {
        OpsError::SpaceError(_) => RecoveryStrategy::Abort,
        OpsError::PermissionError(_) => RecoveryStrategy::Retry,
        OpsError::FileNotFound(_) => RecoveryStrategy::Skip,
        OpsError::CrossVolumeError(_) => RecoveryStrategy::Fallback,
        OpsError::BatchError(_) => RecoveryStrategy::Skip,
        _ => RecoveryStrategy::Retry,
    }
}

/// Where and when an error came up.
#[derive(Debug, Clone)]
pub struct ErrorContext {
    pub operation: String,
    pub file_path: Option<String>,
    pub batch_id: Option<String>,
    pub timestamp: i64,
}

impl ErrorContext {
    /// The context of the operation `operation` at `now`.
    pub fn new(operation: &str, now: i64) -> (out: ErrorContext)
        ensures
            out.operation@ == operation@,
            out.file_path is None,
            out.batch_id is None,
            out.timestamp == now,
    {
        ErrorContext {
            operation: String::from_str(operation),
            file_path: None,
            batch_id: None,
            timestamp: now,
        }
    }

    pub fn with_file_path(self, path: &str) -> (out: ErrorContext)
        ensures
            out.file_path is Some && out.file_path->0@ == path@,
            out.operation == self.operation,
            out.batch_id == self.batch_id,
            out.timestamp == self.timestamp,
    {
        ErrorContext {
            operation: self.operation,
            file_path: Some(String::from_str(path)),
            batch_id: self.batch_id,
            timestamp: self.timestamp,
        }
    }

    pub fn with_batch_id(self, batch_id: &str) -> (out: ErrorContext)
        ensures
            out.batch_id is Some && out.batch_id->0@ == batch_id@,
            out.operation == self.operation,
            out.file_path == self.file_path,
            out.timestamp == self.timestamp,
    {
        ErrorContext {
            operation: self.operation,
            file_path: self.file_path,
            batch_id: Some(String::from_str(batch_id)),
            timestamp: self.timestamp,
        }
    }

    /// The context in words, without the time.
    pub open spec fn lead(self) -> Seq<char> {
        "Operation: "@ + self.operation@ + (match self.file_path {
            Some(p) => ", File: "@ + p@,
            None => Seq::empty(),
        }) + (match self.batch_id {
            Some(b) => ", Batch: "@ + b@,
            None => Seq::empty(),
        })
    }

    /// The context in words: the operation, the file and the batch where
    /// they are known, and the time to the second where it can be
    /// written.
    pub fn to_string(&self) -> (out: String)
        ensures
            out@ == self.lead() + ", Time: "@ + crate::clock::second_text(self.timestamp)
                || out@ == self.lead(),
            0 <= self.timestamp <= crate::clock::LAST_PLAIN_INSTANT ==> out@ == self.lead()
                + ", Time: "@ + crate::clock::second_text(self.timestamp),
    {
        let mut text = crate::text::chars_of("Operation: ");
        crate::text::push_text(&mut text, self.operation.as_str());
        match &self.file_path {
            Some(p) => {
                crate::text::push_text(&mut text, ", File: ");
                crate::text::push_text(&mut text, p.as_str());
            },
            None => {},
        }
        match &self.batch_id {
            Some(b) => {
                crate::text::push_text(&mut text, ", Batch: ");
                crate::text::push_text(&mut text, b.as_str());
            },
            None => {},
        }
        assert(text@ =~= self.lead());
        match crate::clock::format_second(self.timestamp) {
            Some(time) => {
                crate::text::push_text(&mut text, ", Time: ");
                crate::text::push_text(&mut text, time.as_str());
                assert(text@ =~= self.lead() + ", Time: "@ + crate::clock::second_text(
                    self.timestamp,
                ));
            },
            None => {},
        }
        crate::text::string_of(&text)
    }
}

} // verus!
