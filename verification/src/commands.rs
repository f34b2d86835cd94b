//! The command facade: what each request checks before anything is
//! touched, and what it answers.
//!
//! Facts about the file system that a check needs are passed in by the
//! caller.

use crate::db::database::{
    duplicate_digests, duplicate_members, is_live_copy_with_digest, prefs_ok, Database, StoreError,
};
use crate::models::{Duplicate, File, Preference, StagedFileRecord, StagedStatus, WatchedRoot};
use crate::paths::{
    file_name, file_name_of, has_parent_component, is_absolute, is_root, within_root,
};
use crate::selector::scoring::{Candidate, CandidateView};
use crate::seqs::first_n;
use crate::text::{
    chars_of, is_control, is_control_char, join2, lowercase_text, same_chars, string_of,
    to_lowercase,
};
use vstd::prelude::*;
use vstd::string::StringExecFns;

pub mod requests;

verus! {

/// Why a command was refused or failed.
#[derive(Debug, Clone)]
pub enum CommandError {
    Database(String),
    FileSystem(String),
    Validation(String),
    Permission(String),
    NotFound(String),
    Internal(String),
}

impl CommandError {
    /// The detail carried by the error.
    pub open spec fn detail(self) -> Seq<char> {
        match self {
            CommandError::Database(m) => m@,
            CommandError::FileSystem(m) => m@,
            CommandError::Validation(m) => m@,
            CommandError::Permission(m) => m@,
            CommandError::NotFound(m) => m@,
            CommandError::Internal(m) => m@,
        }
    }

    /// The words that precede the detail in the display form.
    pub open spec fn label(self) -> Seq<char> {
        match self {
            CommandError::Database(_) => "Database error: "@,
            CommandError::FileSystem(_) => "File system error: "@,
            CommandError::Validation(_) => "Validation error: "@,
            CommandError::Permission(_) => "Permission error: "@,
            CommandError::NotFound(_) => "Not found: "@,
            CommandError::Internal(_) => "Internal error: "@,
        }
    }

    /// The tag under which the error is reported to the shell.
    pub open spec fn tag(self) -> Seq<char> {
        match self {
            CommandError::Database(_) => "ERR_DATABASE: "@,
            CommandError::FileSystem(_) => "ERR_FILE_SYSTEM: "@,
            CommandError::Validation(_) => "ERR_VALIDATION: "@,
            CommandError::Permission(_) => "ERR_PERMISSION: "@,
            CommandError::NotFound(_) => "ERR_NOT_FOUND: "@,
            CommandError::Internal(_) => "ERR_INTERNAL: "@,
        }
    }

    /// The display form: the kind in words, then the detail.
    pub fn to_string(&self) -> (out: String)
        ensures
            out@ == self.label() + self.detail(),
    {
        match self {
            CommandError::Database(m) => join2("Database error: ", m.as_str()),
            CommandError::FileSystem(m) => join2("File system error: ", m.as_str()),
            CommandError::Validation(m) => join2("Validation error: ", m.as_str()),
            CommandError::Permission(m) => join2("Permission error: ", m.as_str()),
            CommandError::NotFound(m) => join2("Not found: ", m.as_str()),
            CommandError::Internal(m) => join2("Internal error: ", m.as_str()),
        }
    }

    /// The form in which the error is reported to the shell: the tag of
    /// the kind, then the detail.
    pub fn to_response(&self) -> (out: String)
        ensures
            out@ == self.tag() + self.detail(),
    {
        match self {
            CommandError::Database(m) => join2("ERR_DATABASE: ", m.as_str()),
            CommandError::FileSystem(m) => join2("ERR_FILE_SYSTEM: ", m.as_str()),
            CommandError::Validation(m) => join2("ERR_VALIDATION: ", m.as_str()),
            CommandError::Permission(m) => join2("ERR_PERMISSION: ", m.as_str()),
            CommandError::NotFound(m) => join2("ERR_NOT_FOUND: ", m.as_str()),
            CommandError::Internal(m) => join2("ERR_INTERNAL: ", m.as_str()),
        }
    }

    /// The error for a failure of the store.
    pub fn from_store(e: StoreError) -> (out: CommandError)
        ensures
            out is Database,
            out.detail() == store_error_text(e),
    {
        match e {
            StoreError::UniqueViolation => CommandError::Database(
                String::from_str("unique constraint failed"),
            ),
            StoreError::ForeignKeyViolation => CommandError::Database(
                String::from_str("foreign key constraint failed"),
            ),
            StoreError::CheckViolation => CommandError::Database(
                String::from_str("check constraint failed"),
            ),
            StoreError::IdsExhausted => CommandError::Database(
                String::from_str("no identifier left"),
            ),
        }
    }
}

/// The words for a failure of the store.
pub open spec fn store_error_text(e: StoreError) -> Seq<char> {
    match e {
        StoreError::UniqueViolation => "unique constraint failed"@,
        StoreError::ForeignKeyViolation => "foreign key constraint failed"@,
        StoreError::CheckViolation => "check constraint failed"@,
        StoreError::IdsExhausted => "no identifier left"@,
    }
}

/// The kinds under which errors are reported to the shell.
#[derive(Debug, Clone, Copy, PartialEq, Eq, Structural)]
pub enum ErrorKind {
    Validation,
    NotFound,
    Permission,
    Database,
    FileSystem,
    Archive,
    Delete,
    Undo,
    Scan,
    Selector,
    Gauge,
    Internal,
}

impl ErrorKind {
    /// The name of the kind in a response.
    pub open spec fn name(self) -> Seq<char> {
        match self {
            ErrorKind::Validation => "VALIDATION"@,
            ErrorKind::NotFound => "NOT_FOUND"@,
            ErrorKind::Permission => "PERMISSION"@,
            ErrorKind::Database => "DATABASE"@,
            ErrorKind::FileSystem => "FILE_SYSTEM"@,
            ErrorKind::Archive => "ARCHIVE"@,
            ErrorKind::Delete => "DELETE"@,
            ErrorKind::Undo => "UNDO"@,
            ErrorKind::Scan => "SCAN"@,
            ErrorKind::Selector => "SELECTOR"@,
            ErrorKind::Gauge => "GAUGE"@,
            ErrorKind::Internal => "INTERNAL"@,
        }
    }

    /// The response for an error of this kind: `ERR_`, the name of the
    /// kind, a colon and a space, then the message.
    pub fn response(&self, message: &str) -> (out: String)
        ensures
            out@ == "ERR_"@ + self.name() + ": "@ + message@,
    {
        let name = match self {
            ErrorKind::Validation => "VALIDATION",
            ErrorKind::NotFound => "NOT_FOUND",
            ErrorKind::Permission => "PERMISSION",
            ErrorKind::Database => "DATABASE",
            ErrorKind::FileSystem => "FILE_SYSTEM",
            ErrorKind::Archive => "ARCHIVE",
            ErrorKind::Delete => "DELETE",
            ErrorKind::Undo => "UNDO",
            ErrorKind::Scan => "SCAN",
            ErrorKind::Selector => "SELECTOR",
            ErrorKind::Gauge => "GAUGE",
            ErrorKind::Internal => "INTERNAL",
        };
        let a = join2("ERR_", name);
        let b = join2(a.as_str(), ": ");
        join2(b.as_str(), message)
    }
}

/// The display form of the error.
pub fn command_error_to_string(err: CommandError) -> (out: String)
    ensures
        out@ == err.label() + err.detail(),
{
    err.to_string()
}

/// The error for an I/O failure of the given kind while doing `action` on
/// `path`: not found and permission denied keep their kind and name action
/// and path; anything else is a file-system error that also quotes the
/// failure.
pub fn map_io_error(
    action: &str,
    path: &str,
    kind: crate::ops::error::IoFailureKind,
    detail: &str,
) -> (out: CommandError)
    ensures
        match kind {
            crate::ops::error::IoFailureKind::NotFound => out is NotFound && out.detail()
                == action@ + ": "@ + path@,
            crate::ops::error::IoFailureKind::PermissionDenied => out is Permission
                && out.detail() == action@ + ": "@ + path@,
            _ => out is FileSystem && out.detail() == "Failed to "@ + action@ + " "@ + path@ + ": "@
                + detail@,
        },
{
    match kind {
        crate::ops::error::IoFailureKind::NotFound => {
            let a = join2(action, ": ");
            CommandError::NotFound(join2(a.as_str(), path))
        },
        crate::ops::error::IoFailureKind::PermissionDenied => {
            let a = join2(action, ": ");
            CommandError::Permission(join2(a.as_str(), path))
        },
        _ => {
            let a = join2("Failed to ", action);
            let b = join2(a.as_str(), " ");
            let c = join2(b.as_str(), path);
            let d = join2(c.as_str(), ": ");
            CommandError::FileSystem(join2(d.as_str(), detail))
        },
    }
}

/// The test for a character that is not a control character.
pub open spec fn printable() -> spec_fn(char) -> bool {
    |c: char| !is_control(c)
}

/// The text without its control characters, cut to `limit` characters.
pub open spec fn sanitized(s: Seq<char>, limit: nat) -> Seq<char> {
    first_n(s.filter(printable()), limit)
}

fn sanitize_to(input: &str, limit: usize) -> (out: Vec<char>)
    ensures
        out@ == sanitized(input@, limit as nat),
{
    let chars = chars_of(input);
    let mut out: Vec<char> = Vec::new();
    let mut i: usize = 0;
    proof {
        reveal(Seq::filter);
        assert(chars@.take(0).filter(printable()) =~= Seq::<char>::empty());
    }
    while i < chars.len() && out.len() < limit
        invariant
            i <= chars.len(),
            chars@ == input@,
            out@ == chars@.take(i as int).filter(printable()),
            out@.len() <= limit,
        decreases chars.len() - i,
    {
        let c = chars[i];
        proof {
            assert(chars@.take(i + 1) == chars@.take(i as int).push(c));
            chars@.take(i as int).lemma_filter_push(c, printable());
        }
        if !is_control_char(c) {
            out.push(c);
        }
        i = i + 1;
    }
    proof {
        let all = chars@.filter(printable());
        if i == chars.len() {
            assert(chars@.take(i as int) == chars@);
        } else {
            assert(out@.len() == limit);
            lemma_filter_of_prefix(chars@, i as int);
        }
    }
    out
}

/// The filter of a prefix is a prefix of the filter.
proof fn lemma_filter_of_prefix(s: Seq<char>, k: int)
    requires
        0 <= k <= s.len(),
    ensures
        s.take(k).filter(printable()).len() <= s.filter(printable()).len(),
        s.filter(printable()).take(s.take(k).filter(printable()).len() as int) == s.take(k).filter(
            printable(),
        ),
    decreases s.len() - k,
{
    if k < s.len() {
        lemma_filter_of_prefix(s, k + 1);
        assert(s.take(k + 1) == s.take(k).push(s[k]));
        s.take(k).lemma_filter_push(s[k], printable());
        let a = s.take(k).filter(printable());
        let b = s.take(k + 1).filter(printable());
        let all = s.filter(printable());
        assert(all.take(b.len() as int) == b);
        assert(all.take(a.len() as int) =~= b.take(a.len() as int));
        assert(b.take(a.len() as int) =~= a);
    } else {
        assert(s.take(k) == s);
        let all = s.filter(printable());
        assert(all.take(all.len() as int) == all);
    }
}

/// The input without its control characters, cut to 1024 characters.
pub fn sanitize_string(input: &str) -> (out: String)
    ensures
        out@ == sanitized(input@, 1024),
{
    string_of(&sanitize_to(input, 1024))
}

/// The note without its control characters, cut to 256 characters; no
/// note where nothing is left.
pub fn sanitize_note(note: Option<String>) -> (out: Option<String>)
    ensures
        match note {
            Some(raw) => if sanitized(raw@, 256).len() == 0 {
                out is None
            } else {
                out matches Some(t) && t@ == sanitized(raw@, 256)
            },
            None => out is None,
        },
{
    match note {
        Some(raw) => {
            let kept = sanitize_to(raw.as_str(), 256);
            if kept.len() == 0 {
                None
            } else {
                Some(string_of(&kept))
            }
        },
        None => None,
    }
}

/// Whether the identifiers can be worked on: at least one, at most 1000,
/// all above zero. The first rule that is broken decides the message.
pub fn validate_file_ids(file_ids: &[i64]) -> (out: Result<(), CommandError>)
    ensures
        match out {
            Ok(_) => 0 < file_ids@.len() <= 1000 && forall|i: int|
                0 <= i < file_ids@.len() ==> file_ids@[i] > 0,
            Err(e) => {
                &&& e is Validation
                &&& e.detail() == (if file_ids@.len() == 0 {
                    "No file IDs provided"@
                } else if file_ids@.len() > 1000 {
                    "Too many files selected (max 1000)"@
                } else {
                    "Invalid file ID"@
                })
                &&& file_ids@.len() == 0 || file_ids@.len() > 1000 || exists|i: int|
                    0 <= i < file_ids@.len() && file_ids@[i] <= 0
            },
        },
{
    if file_ids.len() == 0 {
        return Err(CommandError::Validation(String::from_str("No file IDs provided")));
    }
    if file_ids.len() > 1000 {
        return Err(
            CommandError::Validation(String::from_str("Too many files selected (max 1000)")),
        );
    }
    let mut i: usize = 0;
    while i < file_ids.len()
        invariant
            i <= file_ids.len(),
            0 < file_ids@.len() <= 1000,
            forall|j: int| 0 <= j < i ==> file_ids@[j] > 0,
        decreases file_ids.len() - i,
    {
        if file_ids[i] <= 0 {
            return Err(CommandError::Validation(String::from_str("Invalid file ID")));
        }
        i = i + 1;
    }
    Ok(())
}

/// The verdict on a path: refused for a parent-directory component; an
/// absolute path must exist and must not be a file-system root.
pub open spec fn path_verdict(path: Seq<char>, exists: bool) -> int {
    if has_parent_component(path) {
        1
    } else if is_absolute(path) && !exists {
        2
    } else if is_absolute(path) && is_root(path) {
        3
    } else {
        0
    }
}

fn check_path(path: &str, exists: bool, root_message: &str) -> (out: Result<String, CommandError>)
    ensures
        match out {
            Ok(p) => path_verdict(path@, exists) == 0 && p@ == path@,
            Err(e) => {
                &&& path_verdict(path@, exists) == 1 ==> e is Validation && e.detail()
                    == "Path traversal not allowed"@
                &&& path_verdict(path@, exists) == 2 ==> e is NotFound && e.detail()
                    == "Path does not exist: "@ + path@
                &&& path_verdict(path@, exists) == 3 ==> e is Permission && e.detail()
                    == root_message@
                &&& path_verdict(path@, exists) != 0
            },
        },
{
    if crate::paths::contains_parent_component(path) {
        return Err(CommandError::Validation(String::from_str("Path traversal not allowed")));
    }
    if crate::paths::is_absolute_path(path) {
        if !exists {
            return Err(CommandError::NotFound(join2("Path does not exist: ", path)));
        }
        if crate::paths::is_system_root(path) {
            return Err(CommandError::Permission(String::from_str(root_message)));
        }
    }
    Ok(String::from_str(path))
}

/// Checks a path that is to be watched or worked on; `exists` says whether
/// it is there.
///
/// A path with a parent-directory component is a validation error. An
/// absolute path that is not there is not found; one that is a file-system
/// root is refused.
pub fn validate_path(path: &str, exists: bool) -> (out: Result<String, CommandError>)
    ensures
        match out {
            Ok(p) => path_verdict(path@, exists) == 0 && p@ == path@,
            Err(e) => {
                &&& path_verdict(path@, exists) == 1 ==> e is Validation && e.detail()
                    == "Path traversal not allowed"@
                &&& path_verdict(path@, exists) == 2 ==> e is NotFound && e.detail()
                    == "Path does not exist: "@ + path@
                &&& path_verdict(path@, exists) == 3 ==> e is Permission && e.detail()
                    == "Watching the system root is not supported"@
                &&& path_verdict(path@, exists) != 0
            },
        },
{
    check_path(path, exists, "Watching the system root is not supported")
}

/// Checks a path that is to be scanned; `exists` says whether it is there.
/// The rules are those of `validate_path`.
pub fn validate_scan_path(path: &str, exists: bool) -> (out: Result<String, CommandError>)
    ensures
        match out {
            Ok(p) => path_verdict(path@, exists) == 0 && p@ == path@,
            Err(e) => {
                &&& path_verdict(path@, exists) == 1 ==> e is Validation && e.detail()
                    == "Path traversal not allowed"@
                &&& path_verdict(path@, exists) == 2 ==> e is NotFound && e.detail()
                    == "Path does not exist: "@ + path@
                &&& path_verdict(path@, exists) == 3 ==> e is Permission && e.detail()
                    == "Cannot scan system root"@
                &&& path_verdict(path@, exists) != 0
            },
        },
{
    check_path(path, exists, "Cannot scan system root")
}

/// What the file system says of a path.
#[derive(Debug, Clone)]
pub struct PathProbe {
    /// Whether the path is there.
    pub exists: bool,
    /// The canonical form of the path, where it could be had.
    pub canonical: Option<String>,
    /// Whether the path, in its canonical form where there is one, is a
    /// directory.
    pub is_dir: bool,
}

/// The canonical form where there is one, else the path itself.
pub fn canonicalize_or_clone(path: &str, canonical: &Option<String>) -> (out: String)
    ensures
        out@ == (match *canonical {
            Some(c) => c@,
            None => path@,
        }),
{
    match canonical {
        Some(c) => c.clone(),
        None => String::from_str(path),
    }
}

/// The form under which a directory is registered: its canonical form
/// where it is there and has one, else the path as given. Anything that is
/// not a directory is a validation error that quotes the path.
pub fn normalize_directory_path(path: &str, probe: &PathProbe) -> (out: Result<
    String,
    CommandError,
>)
    ensures
        match out {
            Ok(p) => probe.is_dir && p@ == (if probe.exists && probe.canonical is Some {
                probe.canonical->0@
            } else {
                path@
            }),
            Err(e) => !probe.is_dir && e is Validation && e.detail()
                == "Path is not a directory: "@ + path@,
        },
{
    if !probe.is_dir {
        return Err(CommandError::Validation(join2("Path is not a directory: ", path)));
    }
    if probe.exists {
        Ok(canonicalize_or_clone(path, &probe.canonical))
    } else {
        Ok(String::from_str(path))
    }
}

/// The canonical form of a path that is there, or the path itself where
/// it has none. A path that is not there is not found.
pub fn normalize_existing_path(path: &str, probe: &PathProbe) -> (out: Result<
    String,
    CommandError,
>)
    ensures
        match out {
            Ok(p) => probe.exists && p@ == (match probe.canonical {
                Some(c) => c@,
                None => path@,
            }),
            Err(e) => !probe.exists && e is NotFound && e.detail() == "Path not found: "@ + path@,
        },
{
    if !probe.exists {
        return Err(CommandError::NotFound(join2("Path not found: ", path)));
    }
    Ok(canonicalize_or_clone(path, &probe.canonical))
}

/// Whether `path` is one of `roots` or lies inside one.
pub open spec fn within_some_root(path: Seq<char>, roots: Seq<String>) -> bool {
    exists|i: int| 0 <= i < roots.len() && within_root(path, (#[trigger] roots[i])@)
}

/// Whether `path` is one of `roots` or lies inside one; the roots are
/// given in their canonical form.
pub fn is_within_watched_roots(path: &str, roots: &Vec<String>) -> (r: bool)
    ensures
        r == within_some_root(path@, roots@),
{
    let mut i: usize = 0;
    while i < roots.len()
        invariant
            i <= roots.len(),
            forall|j: int| 0 <= j < i ==> !within_root(path@, (#[trigger] roots@[j])@),
        decreases roots.len() - i,
    {
        if crate::paths::path_within_root(path, roots[i].as_str()) {
            return true;
        }
        i = i + 1;
    }
    false
}

/// Refuses a path that is outside every watched root.
pub fn ensure_within_watched(path: &str, roots: &Vec<String>) -> (out: Result<(), CommandError>)
    ensures
        match out {
            Ok(_) => within_some_root(path@, roots@),
            Err(e) => !within_some_root(path@, roots@) && e is Permission && e.detail()
                == "Path must be within a watched folder"@,
        },
{
    if is_within_watched_roots(path, roots) {
        Ok(())
    } else {
        Err(CommandError::Permission(String::from_str("Path must be within a watched folder")))
    }
}

/// One candidate as the shell shows it.
#[derive(Debug, Clone)]
pub struct UiCandidate {
    pub id: i64,
    pub path: String,
    pub parent: String,
    pub size: u64,
    pub mime: Option<String>,
    pub created_at: Option<String>,
    pub modified_at: Option<String>,
    pub accessed_at: Option<String>,
    pub partial_sha1: Option<String>,
    pub sha1: Option<String>,
    pub reason: String,
    pub group_key: Option<String>,
}

/// How many candidates of a bucket are on a page, and their size.
#[derive(Debug, Clone)]
pub struct BucketSummary {
    pub key: String,
    pub count: usize,
    pub total_bytes: u64,
}

/// Which part of the candidates a page shows.
#[derive(Debug, Clone, Copy, PartialEq, Eq, Structural)]
pub struct Paging {
    pub limit: usize,
    pub offset: usize,
    pub has_more: bool,
}

/// One page of candidates, bucket by bucket.
#[derive(Debug, Clone)]
pub struct CandidatesResponse {
    /// For each bucket that has a candidate on the page, in the order in
    /// which the buckets first occur there, its candidates in page order.
    pub by_bucket: Vec<(String, Vec<UiCandidate>)>,
    /// For each of those buckets, in the same order, its summary.
    pub summaries: Vec<BucketSummary>,
    /// How many candidates passed the filters, on all pages together.
    pub total_count: usize,
    pub paging: Paging,
    pub errors: Vec<String>,
}

/// What a request for bucketed candidates may say.
#[derive(Debug, Clone)]
pub struct GetCandidatesBucketedParams {
    /// The largest number of candidates on a page; 100 where absent, and
    /// never more than 1000.
    pub limit: Option<usize>,
    /// How many candidates to pass over; none where absent.
    pub offset: Option<usize>,
    /// The least confidence, in hundredths.
    pub min_confidence: Option<u8>,
    pub max_results_per_bucket: Option<usize>,
    pub include_archived: Option<bool>,
    pub include_deleted: Option<bool>,
    /// A directory to which the candidates are confined.
    pub root_path: Option<String>,
    /// The buckets to show; all where absent or empty.
    pub buckets: Option<Vec<String>>,
    /// `size_desc`, `age_desc` or `name_asc`; anything else keeps the
    /// order of the candidates.
    pub sort: Option<String>,
}

/// The text with each space replaced by an underscore.
pub open spec fn underscored(s: Seq<char>) -> Seq<char> {
    Seq::new(
        s.len(),
        |i: int|
            if s[i] == ' ' {
                '_'
            } else {
                s[i]
            },
    )
}

/// The key of the bucket named `reason`: that of the lower-case form of
/// the name.
pub open spec fn bucket_key(reason: Seq<char>) -> Seq<char> {
    key_of_lower(lowercase_text(reason))
}

/// The key of the bucket whose name in lower case is `lower`: the name in
/// the singular for the known buckets, spaces as underscores.
pub open spec fn key_of_lower(lower: Seq<char>) -> Seq<char> {
    if lower == "screenshots"@ {
        "screenshot"@
    } else if lower == "big downloads"@ {
        "big_download"@
    } else if lower == "old desktop"@ {
        "old_desktop"@
    } else if lower == "executable"@ || lower == "executables"@ {
        "executable"@
    } else if lower == "duplicates"@ {
        "duplicate"@
    } else {
        underscored(lower)
    }
}

/// The key of the bucket named `reason`.
pub fn normalize_bucket_key(reason: &str) -> (out: String)
    ensures
        out@ == bucket_key(reason@),
{
    let lower = to_lowercase(reason);
    bucket_key_of_lower(lower.as_str())
}

/// The key of the bucket whose name is given in lower case: the name in
/// the singular for the known buckets, spaces as underscores.
pub fn bucket_key_of_lower(lower_name: &str) -> (out: String)
    ensures
        out@ == key_of_lower(lower_name@),
{
    let lower = chars_of(lower_name);
    if same_chars(&lower, &chars_of("screenshots")) {
        String::from_str("screenshot")
    } else if same_chars(&lower, &chars_of("big downloads")) {
        String::from_str("big_download")
    } else if same_chars(&lower, &chars_of("old desktop")) {
        String::from_str("old_desktop")
    } else if same_chars(&lower, &chars_of("executable")) || same_chars(
        &lower,
        &chars_of("executables"),
    ) {
        String::from_str("executable")
    } else if same_chars(&lower, &chars_of("duplicates")) {
        String::from_str("duplicate")
    } else {
        let mut out: Vec<char> = Vec::new();
        let mut i: usize = 0;
        while i < lower.len()
            invariant
                i <= lower.len(),
                out@.len() == i,
                forall|j: int| 0 <= j < i ==> out@[j] == underscored(lower@)[j],
            decreases lower.len() - i,
        {
            if lower[i] == ' ' {
                out.push('_');
            } else {
                out.push(lower[i]);
            }
            i = i + 1;
        }
        assert(out@ =~= underscored(lower@));
        string_of(&out)
    }
}

/// The test for a candidate whose path starts with the text `root`.
pub open spec fn path_starts_with(root: Seq<char>) -> spec_fn(CandidateView) -> bool {
    |c: CandidateView| root.is_prefix_of(c.path)
}

/// The test for a candidate of one of the buckets `requested`; every
/// candidate passes where none is requested.
pub open spec fn in_requested(requested: Seq<Seq<char>>) -> spec_fn(CandidateView) -> bool {
    |c: CandidateView| requested.len() == 0 || requested.contains(bucket_key(c.reason))
}

/// The test for a candidate of the bucket with the key `key`.
pub open spec fn has_key(key: Seq<char>) -> spec_fn(CandidateView) -> bool {
    |c: CandidateView| bucket_key(c.reason) == key
}

/// The keys of the requested buckets.
pub open spec fn requested_keys(buckets: Option<Vec<String>>) -> Seq<Seq<char>> {
    match buckets {
        Some(names) => Seq::new(names@.len(), |i: int| bucket_key(names@[i]@)),
        None => Seq::empty(),
    }
}

/// The code points of a text.
pub open spec fn code_points(s: Seq<char>) -> Seq<int> {
    Seq::new(s.len(), |i: int| s[i] as u32 as int)
}

/// The key by which a candidate is sorted: its size or its age, largest
/// first, or the lower-case form of its path; nothing for any other
/// sorting, which keeps the order.
pub open spec fn sort_key(c: CandidateView, sort: Option<String>) -> Seq<int> {
    if sort is Some && sort->0@ == "size_desc"@ {
        seq![-(c.size_bytes as int)]
    } else if sort is Some && sort->0@ == "age_desc"@ {
        seq![-(c.age_days as int)]
    } else if sort is Some && sort->0@ == "name_asc"@ {
        code_points(lowercase_text(c.path))
    } else {
        Seq::empty()
    }
}

/// For each candidate its sort key.
pub open spec fn sort_keys(candidates: Seq<CandidateView>, sort: Option<String>) -> Seq<Seq<int>> {
    Seq::new(candidates.len(), |i: int| sort_key(candidates[i], sort))
}

/// The largest number of candidates on a page.
pub open spec fn page_limit(params: GetCandidatesBucketedParams) -> nat {
    let asked = if params.limit is Some {
        params.limit->0
    } else {
        100
    };
    if asked > 1000 {
        1000
    } else {
        asked as nat
    }
}

/// How many candidates a page passes over.
pub open spec fn page_offset(params: GetCandidatesBucketedParams) -> nat {
    if params.offset is Some {
        params.offset->0 as nat
    } else {
        0
    }
}

/// The candidates that pass the bucket filter, sorted as asked.
pub open spec fn filtered_sorted(
    candidates: Seq<CandidateView>,
    params: GetCandidatesBucketedParams,
) -> Seq<CandidateView> {
    let kept = candidates.filter(in_requested(requested_keys(params.buckets)));
    crate::order::arranged(kept, sort_keys(kept, params.sort))
}

/// Where the page ends among `total` candidates.
pub open spec fn page_end(total: nat, offset: nat, limit: nat) -> nat {
    if offset + limit < total {
        offset + limit
    } else {
        total
    }
}

/// The candidates of the page.
pub open spec fn page_of(all: Seq<CandidateView>, offset: nat, limit: nat) -> Seq<CandidateView> {
    if offset < all.len() {
        all.subrange(offset as int, page_end(all.len(), offset, limit) as int)
    } else {
        Seq::empty()
    }
}

/// The bucket keys of the candidates.
pub open spec fn keys_of(candidates: Seq<CandidateView>) -> Seq<Seq<char>> {
    Seq::new(candidates.len(), |i: int| bucket_key(candidates[i].reason))
}

/// The entry shows the candidate under its bucket key.
pub open spec fn shows(u: UiCandidate, c: CandidateView) -> bool {
    &&& u.id == c.file_id
    &&& u.path@ == c.path
    &&& u.parent@ == c.parent_dir
    &&& u.size == c.size_bytes
    &&& u.mime is None
    &&& u.created_at is None
    &&& u.modified_at is None
    &&& u.accessed_at is None
    &&& u.partial_sha1 is None
    &&& u.sha1 is None
    &&& u.reason@ == bucket_key(c.reason)
    &&& u.group_key is None
}

/// The entries show the candidates, one by one.
pub open spec fn show_all(entries: Seq<UiCandidate>, candidates: Seq<CandidateView>) -> bool {
    &&& entries.len() == candidates.len()
    &&& forall|i: int| 0 <= i < entries.len() ==> shows(#[trigger] entries[i], candidates[i])
}

/// The sum of the sizes of the candidates, capped at the largest `u64`.
pub open spec fn views_size(candidates: Seq<CandidateView>) -> nat
    decreases candidates.len(),
{
    if candidates.len() == 0 {
        0
    } else {
        let sum = views_size(candidates.drop_last()) + candidates.last().size_bytes;
        if sum > u64::MAX {
            u64::MAX as nat
        } else {
            sum as nat
        }
    }
}

/// The response shows the page `page` of `total` candidates.
pub open spec fn is_page_response(
    resp: CandidatesResponse,
    page: Seq<CandidateView>,
    total: nat,
    offset: nat,
    limit: nat,
) -> bool {
    let keys = crate::selector::distinct_in_order(keys_of(page));
    &&& resp.total_count == total
    &&& resp.paging.limit == limit
    &&& resp.paging.offset == offset
    &&& resp.paging.has_more == (page_end(total, offset, limit) < total)
    &&& resp.errors@.len() == 0
    &&& resp.by_bucket@.len() == keys.len()
    &&& resp.summaries@.len() == keys.len()
    &&& forall|b: int|
        0 <= b < keys.len() ==> {
            let members = page.filter(has_key(keys[b]));
            &&& (#[trigger] resp.by_bucket@[b]).0@ == keys[b]
            &&& show_all(resp.by_bucket@[b].1@, members)
        }
    &&& forall|b: int|
        0 <= b < keys.len() ==> {
            let members = page.filter(has_key(keys[b]));
            &&& (#[trigger] resp.summaries@[b]).key@ == keys[b]
            &&& resp.summaries@[b].count == members.len()
            &&& resp.summaries@[b].total_bytes == views_size(members)
        }
}

/// How many candidates to ask the selector for: the page and what it
/// passes over, fifty times that but at most 10000 where the candidates are
/// confined to a directory. A limit of zero is a validation error.
pub fn bucketed_fetch_size(params: &GetCandidatesBucketedParams) -> (out: Result<
    usize,
    CommandError,
>)
    ensures
        match out {
            Ok(n) => page_limit(*params) > 0 && n == fetch_size_of(*params),
            Err(e) => page_limit(*params) == 0 && e is Validation && e.detail()
                == "limit must be > 0"@,
        },
{
    let limit = limit_of(params);
    let offset = offset_of(params);
    if limit == 0 {
        return Err(CommandError::Validation(String::from_str("limit must be > 0")));
    }
    let sum = limit.saturating_add(offset);
    if params.root_path.is_some() {
        Ok(if sum > 200 {
            10000
        } else {
            sum * 50
        })
    } else {
        Ok(sum)
    }
}

/// How many candidates to ask the selector for.
pub open spec fn fetch_size_of(params: GetCandidatesBucketedParams) -> nat {
    let sum = page_limit(params) + page_offset(params);
    let capped = if sum > usize::MAX {
        usize::MAX as nat
    } else {
        sum
    };
    if params.root_path is Some {
        if capped * 50 > 10000 {
            10000
        } else {
            capped * 50
        }
    } else {
        capped
    }
}

fn limit_of(params: &GetCandidatesBucketedParams) -> (limit: usize)
    ensures
        limit == page_limit(*params),
{
    let asked = match params.limit {
        Some(n) => n,
        None => 100,
    };
    if asked > 1000 {
        1000
    } else {
        asked
    }
}

fn offset_of(params: &GetCandidatesBucketedParams) -> (offset: usize)
    ensures
        offset == page_offset(*params),
{
    match params.offset {
        Some(n) => n,
        None => 0,
    }
}

/// Keeps the candidates whose path starts with the text `root_path`.
pub fn filter_candidates_by_root_path(
    candidates: &mut Vec<crate::selector::scoring::Candidate>,
    root_path: &str,
)
    ensures
        crate::selector::candidate_views(final(candidates)@) == crate::selector::candidate_views(
            old(candidates)@,
        ).filter(path_starts_with(root_path@)),
{
    let root = chars_of(root_path);
    let mut mask: Vec<bool> = Vec::new();
    let mut i: usize = 0;
    let ghost views = crate::selector::candidate_views(candidates@);
    while i < candidates.len()
        invariant
            i <= candidates.len(),
            *candidates == *old(candidates),
            views == crate::selector::candidate_views(candidates@),
            root@ == root_path@,
            mask@.len() == i,
            forall|j: int|
                0 <= j < i ==> mask@[j] == path_starts_with(root_path@)(#[trigger] views[j]),
        decreases candidates.len() - i,
    {
        let path = chars_of(candidates[i].path.as_str());
        mask.push(crate::text::starts_with(&path, &root));
        i = i + 1;
    }
    let kept = crate::seqs::pick_by_mask(candidates, &mask);
    proof {
        lemma_masked_candidate_views(candidates@, mask@);
        crate::seqs::lemma_masked_is_filter(views, mask@, path_starts_with(root_path@));
    }
    *candidates = kept;
}

/// Selecting candidates by a mask and viewing them is selecting their
/// views by the mask.
pub proof fn lemma_masked_candidate_views(
    items: Seq<crate::selector::scoring::Candidate>,
    mask: Seq<bool>,
)
    requires
        items.len() == mask.len(),
    ensures
        crate::selector::candidate_views(crate::seqs::masked(items, mask)) == crate::seqs::masked(
            crate::selector::candidate_views(items),
            mask,
        ),
    decreases items.len(),
{
    let views = crate::selector::candidate_views(items);
    if items.len() > 0 {
        lemma_masked_candidate_views(items.drop_last(), mask.drop_last());
        assert(views.drop_last() =~= crate::selector::candidate_views(items.drop_last()));
        assert(views.last() == items.last()@);
    }
    assert(crate::selector::candidate_views(crate::seqs::masked(items, mask))
        =~= crate::seqs::masked(views, mask));
}

/// The size of candidates is the size of their views.
pub proof fn lemma_views_size(items: Seq<Candidate>)
    ensures
        crate::selector::candidates_size(items) == views_size(
            crate::selector::candidate_views(items),
        ),
    decreases items.len(),
{
    let views = crate::selector::candidate_views(items);
    if items.len() > 0 {
        lemma_views_size(items.drop_last());
        assert(views.drop_last() =~= crate::selector::candidate_views(items.drop_last()));
        assert(views.last() == items.last()@);
    }
}

fn sort_key_of(c: &Candidate, sort: &Option<String>) -> (key: Vec<i128>)
    ensures
        crate::order::ints(key@) == sort_key(c@, *sort),
{
    let mode: u8 = match sort {
        Some(s) => {
            if crate::text::same_text(s.as_str(), "size_desc") {
                1
            } else if crate::text::same_text(s.as_str(), "age_desc") {
                2
            } else if crate::text::same_text(s.as_str(), "name_asc") {
                3
            } else {
                0
            }
        },
        None => 0,
    };
    proof {
        reveal_strlit("size_desc");
        reveal_strlit("age_desc");
        reveal_strlit("name_asc");
        assert("size_desc"@ != "age_desc"@) by {
            assert("size_desc"@[0] != "age_desc"@[0]);
        }
        assert("size_desc"@ != "name_asc"@) by {
            assert("size_desc"@[0] != "name_asc"@[0]);
        }
        assert("age_desc"@ != "name_asc"@) by {
            assert("age_desc"@[0] != "name_asc"@[0]);
        }
    }
    if mode == 1 {
        crate::order::key1(-(c.size_bytes as i128))
    } else if mode == 2 {
        crate::order::key1(-(c.age_days as i128))
    } else if mode == 3 {
        let lower = to_lowercase(c.path.as_str());
        let chars = chars_of(lower.as_str());
        let mut key: Vec<i128> = Vec::new();
        let mut i: usize = 0;
        while i < chars.len()
            invariant
                i <= chars.len(),
                key@.len() == i,
                forall|j: int| 0 <= j < i ==> key@[j] == chars@[j] as u32 as int,
            decreases chars.len() - i,
        {
            let c = chars[i];
            let u: u32 = c as u32;
            let v: i128 = u as i128;

            key.push(v);
            i = i + 1;
        }
        assert(crate::order::ints(key@) =~= code_points(chars@));
        key
    } else {
        let key: Vec<i128> = Vec::new();
        assert(crate::order::ints(key@) =~= Seq::<int>::empty());
        key
    }
}

fn show(c: &Candidate) -> (u: UiCandidate)
    ensures
        shows(u, c@),
{
    UiCandidate {
        id: c.file_id,
        path: c.path.clone(),
        parent: c.parent_dir.clone(),
        size: c.size_bytes,
        mime: None,
        created_at: None,
        modified_at: None,
        accessed_at: None,
        partial_sha1: None,
        sha1: None,
        reason: normalize_bucket_key(c.reason.as_str()),
        group_key: None,
    }
}

/// One page of the candidates, bucket by bucket.
///
/// The candidates of the requested buckets are sorted as asked; the page
/// starts after `offset` of them and holds up to `limit`. The page is shown
/// bucket by bucket, the buckets in the order in which they first occur on
/// it, each with a summary of its candidates on the page. A limit of zero
/// is a validation error.
pub fn get_candidates_bucketed(params: &GetCandidatesBucketedParams, candidates: &Vec<Candidate>) -> (out:
    Result<CandidatesResponse, CommandError>)
    ensures
        match out {
            Ok(resp) => {
                let all = filtered_sorted(crate::selector::candidate_views(candidates@), *params);
                &&& page_limit(*params) > 0
                &&& is_page_response(
                    resp,
                    page_of(all, page_offset(*params), page_limit(*params)),
                    all.len(),
                    page_offset(*params),
                    page_limit(*params),
                )
            },
            Err(e) => page_limit(*params) == 0 && e is Validation && e.detail()
                == "limit must be > 0"@,
        },
{
    let limit = limit_of(params);
    let offset = offset_of(params);
    if limit == 0 {
        return Err(CommandError::Validation(String::from_str("limit must be > 0")));
    }
    let ghost views = crate::selector::candidate_views(candidates@);
    let ghost wanted = requested_keys(params.buckets);
    let mut requested: Vec<String> = Vec::new();
    match &params.buckets {
        Some(names) => {
            let mut i: usize = 0;
            while i < names.len()
                invariant
                    i <= names.len(),
                    requested@.len() == i,
                    forall|j: int|
                        0 <= j < i ==> (#[trigger] requested@[j])@ == bucket_key(names@[j]@),
                decreases names.len() - i,
            {
                requested.push(normalize_bucket_key(names[i].as_str()));
                i = i + 1;
            }
        },
        None => {},
    }
    assert(crate::selector::scoring::texts_of(requested@) =~= wanted);
    let mut mask: Vec<bool> = Vec::new();
    let mut i: usize = 0;
    while i < candidates.len()
        invariant
            i <= candidates.len(),
            views == crate::selector::candidate_views(candidates@),
            crate::selector::scoring::texts_of(requested@) == wanted,
            mask@.len() == i,
            forall|j: int| 0 <= j < i ==> mask@[j] == in_requested(wanted)(#[trigger] views[j]),
        decreases candidates.len() - i,
    {
        let key = normalize_bucket_key(candidates[i].reason.as_str());
        let keep = requested.len() == 0 || crate::selector::scoring::has_text(&requested, &key);
        mask.push(keep);
        i = i + 1;
    }
    let kept = crate::seqs::pick_by_mask(candidates, &mask);
    let ghost kept_views = views.filter(in_requested(wanted));
    proof {
        lemma_masked_candidate_views(candidates@, mask@);
        crate::seqs::lemma_masked_is_filter(views, mask@, in_requested(wanted));
        assert(crate::selector::candidate_views(kept@) == kept_views);
    }
    let mut keys: Vec<Vec<i128>> = Vec::new();
    let mut i: usize = 0;
    while i < kept.len()
        invariant
            i <= kept.len(),
            keys@.len() == i,
            forall|j: int|
                0 <= j < i ==> crate::order::ints((#[trigger] keys@[j])@) == sort_key(
                    kept@[j]@,
                    params.sort,
                ),
        decreases kept.len() - i,
    {
        keys.push(sort_key_of(&kept[i], &params.sort));
        i = i + 1;
    }
    let ghost kv = sort_keys(kept_views, params.sort);
    assert(crate::order::key_views(keys@) =~= kv);
    let sorted = crate::seqs::arrange(&kept, &keys);
    let ghost all = filtered_sorted(views, *params);
    assert(crate::selector::candidate_views(sorted@) =~= all);
    let total = sorted.len();
    let reach = offset.saturating_add(limit);
    let end = if reach < total {
        reach
    } else {
        total
    };
    assert(end == page_end(total as nat, offset as nat, limit as nat));
    let mut page: Vec<Candidate> = Vec::new();
    if offset < total {
        let mut i: usize = offset;
        while i < end
            invariant
                offset <= i <= end <= total,
                total == sorted@.len(),
                page@ == sorted@.subrange(offset as int, i as int),
            decreases end - i,
        {
            page.push(Candidate::duplicate(&sorted[i]));
            i = i + 1;
            assert(sorted@.subrange(offset as int, i as int) == sorted@.subrange(
                offset as int,
                i - 1,
            ).push(sorted@[i - 1]));
        }
    }
    let ghost page_views = page_of(all, offset as nat, limit as nat);
    assert(crate::selector::candidate_views(page@) =~= page_views);
    let mut page_keys: Vec<String> = Vec::new();
    let mut i: usize = 0;
    while i < page.len()
        invariant
            i <= page.len(),
            page_keys@.len() == i,
            forall|j: int| 0 <= j < i ==> (#[trigger] page_keys@[j])@ == bucket_key(page@[j].reason@),
        decreases page.len() - i,
    {
        page_keys.push(normalize_bucket_key(page[i].reason.as_str()));
        i = i + 1;
    }
    assert(crate::selector::scoring::texts_of(page_keys@) =~= keys_of(page_views));
    let distinct = crate::selector::dedupe(&page_keys);
    let ghost bucket_keys = crate::selector::distinct_in_order(keys_of(page_views));
    let mut by_bucket: Vec<(String, Vec<UiCandidate>)> = Vec::new();
    let mut summaries: Vec<BucketSummary> = Vec::new();
    let mut b: usize = 0;
    while b < distinct.len()
        invariant
            b <= distinct.len(),
            crate::selector::scoring::texts_of(distinct@) == bucket_keys,
            crate::selector::candidate_views(page@) == page_views,
            page_keys@.len() == page@.len(),
            forall|j: int|
                0 <= j < page@.len() ==> (#[trigger] page_keys@[j])@ == bucket_key(
                    page@[j].reason@,
                ),
            by_bucket@.len() == b,
            summaries@.len() == b,
            forall|x: int|
                0 <= x < b ==> {
                    let members = page_views.filter(has_key(bucket_keys[x]));
                    &&& (#[trigger] by_bucket@[x]).0@ == bucket_keys[x]
                    &&& show_all(by_bucket@[x].1@, members)
                },
            forall|x: int|
                0 <= x < b ==> {
                    let members = page_views.filter(has_key(bucket_keys[x]));
                    &&& (#[trigger] summaries@[x]).key@ == bucket_keys[x]
                    &&& summaries@[x].count == members.len()
                    &&& summaries@[x].total_bytes == views_size(members)
                },
        decreases distinct.len() - b,
    {
        let key = &distinct[b];
        assert(crate::selector::scoring::texts_of(distinct@)[b as int] == key@);
        let mut mask: Vec<bool> = Vec::new();
        let mut j: usize = 0;
        while j < page.len()
            invariant
                j <= page.len(),
                crate::selector::candidate_views(page@) == page_views,
                page_keys@.len() == page@.len(),
                forall|x: int|
                    0 <= x < page@.len() ==> (#[trigger] page_keys@[x])@ == bucket_key(
                        page@[x].reason@,
                    ),
                mask@.len() == j,
                forall|x: int| 0 <= x < j ==> mask@[x] == has_key(key@)(#[trigger] page_views[x]),
            decreases page.len() - j,
        {
            assert(page_views[j as int] == page@[j as int]@);
            mask.push(page_keys[j] == *key);
            j = j + 1;
        }
        let members = crate::seqs::pick_by_mask(&page, &mask);
        let ghost member_views = page_views.filter(has_key(key@));
        proof {
            lemma_masked_candidate_views(page@, mask@);
            crate::seqs::lemma_masked_is_filter(page_views, mask@, has_key(key@));
            assert(crate::selector::candidate_views(members@) == member_views);
            lemma_views_size(members@);
        }
        let mut entries: Vec<UiCandidate> = Vec::new();
        let mut j: usize = 0;
        while j < members.len()
            invariant
                j <= members.len(),
                entries@.len() == j,
                forall|x: int| 0 <= x < j ==> shows(#[trigger] entries@[x], members@[x]@),
            decreases members.len() - j,
        {
            entries.push(show(&members[j]));
            j = j + 1;
        }
        proof {
            assert forall|x: int| 0 <= x < entries@.len() implies shows(
                #[trigger] entries@[x],
                member_views[x],
            ) by {
                assert(member_views[x] == members@[x]@);
            }
        }
        let total_bytes = crate::selector::sum_candidate_sizes(&members);
        summaries.push(BucketSummary { key: key.clone(), count: members.len(), total_bytes });
        by_bucket.push((key.clone(), entries));
        b = b + 1;
    }
    Ok(
        CandidatesResponse {
            by_bucket,
            summaries,
            total_count: total,
            paging: Paging { limit, offset, has_more: end < total },
            errors: Vec::new(),
        },
    )
}

/// The preferences of the user.
#[derive(Debug, Clone)]
pub struct UserPrefs {
    pub dry_run_default: bool,
    pub tidy_day: String,
    pub tidy_hour: u32,
    pub rolling_window_days: i64,
    pub max_candidates_per_day: usize,
    pub thumbnail_max_size: u32,
    pub auto_scan_enabled: bool,
    pub scan_interval_hours: u32,
    pub archive_age_threshold_days: u32,
    pub delete_age_threshold_days: u32,
}

/// The preferences that a request changes.
#[derive(Debug, Clone)]
pub struct PartialUserPrefs {
    pub dry_run_default: Option<bool>,
    pub tidy_day: Option<String>,
    pub tidy_hour: Option<u32>,
    pub rolling_window_days: Option<i64>,
    pub max_candidates_per_day: Option<usize>,
    pub thumbnail_max_size: Option<u32>,
    pub auto_scan_enabled: Option<bool>,
    pub scan_interval_hours: Option<u32>,
    pub archive_age_threshold_days: Option<u32>,
    pub delete_age_threshold_days: Option<u32>,
}

/// The truth value stored under `key`, or `default` where none is stored
/// or what is stored is neither `true` nor `false`.
pub open spec fn bool_pref(pairs: Seq<(Seq<char>, Seq<char>)>, key: Seq<char>, default: bool) -> bool {
    match crate::db::database::pref_text(pairs, key) {
        Some(t) => if t == "true"@ {
            true
        } else if t == "false"@ {
            false
        } else {
            default
        },
        None => default,
    }
}

/// The number stored under `key`, or `default` where none is stored or
/// what is stored is not a numeral for a number up to `max`.
pub open spec fn number_pref(
    pairs: Seq<(Seq<char>, Seq<char>)>,
    key: Seq<char>,
    max: u64,
    default: nat,
) -> nat {
    match crate::db::database::pref_text(pairs, key) {
        Some(t) => if crate::text::is_unsigned_numeral(t, max) {
            crate::text::decimal_value(crate::text::unsigned_digits(t))
        } else {
            default
        },
        None => default,
    }
}

/// The number stored under `key`, or `default` where none is stored or
/// what is stored is not a numeral for an `i64`.
pub open spec fn signed_pref(pairs: Seq<(Seq<char>, Seq<char>)>, key: Seq<char>, default: int) -> int {
    match crate::db::database::pref_text(pairs, key) {
        Some(t) => match crate::text::signed_value(t) {
            Some(v) => v,
            None => default,
        },
        None => default,
    }
}

/// The text stored under `key`, or `default` where none is stored.
pub open spec fn text_pref(
    pairs: Seq<(Seq<char>, Seq<char>)>,
    key: Seq<char>,
    default: Seq<char>,
) -> Seq<char> {
    match crate::db::database::pref_text(pairs, key) {
        Some(t) => t,
        None => default,
    }
}

fn read_bool(db: &Database, key: &str, default: bool) -> (out: bool)
    requires
        db.wf(),
    ensures
        out == bool_pref(crate::db::database::pref_views(db.prefs()), key@, default),
{
    match db.get_preference(key) {
        Some(t) => match crate::text::parse_bool(t.as_str()) {
            Some(b) => {
                proof {
                    reveal_strlit("true");
                    reveal_strlit("false");
                    assert("true"@ != "false"@) by {
                        assert("true"@[0] != "false"@[0]);
                    }
                }
                b
            },
            None => default,
        },
        None => default,
    }
}

fn read_number(db: &Database, key: &str, max: u64, default: u64) -> (out: u64)
    requires
        db.wf(),
        default <= max,
    ensures
        out == number_pref(crate::db::database::pref_views(db.prefs()), key@, max, default as nat),
        out <= max,
{
    match db.get_preference(key) {
        Some(t) => match crate::text::parse_unsigned(t.as_str(), max) {
            Some(v) => v,
            None => default,
        },
        None => default,
    }
}

/// The preferences of the user: what is stored, and for what is not
/// stored, or stored in a form that cannot be read, the default.
///
/// The defaults: dry run on, tidy day `Fri` at 17 hours, a window of 7
/// days, 12 candidates a day, thumbnails of 256 pixels, no automatic scan,
/// a scan every 24 hours, archive after 7 days and delete after 30.
pub fn get_prefs(db: &Database) -> (out: UserPrefs)
    requires
        db.wf(),
    ensures
        ({
            let pairs = crate::db::database::pref_views(db.prefs());
            &&& out.dry_run_default == bool_pref(pairs, "dry_run_default"@, true)
            &&& out.tidy_day@ == text_pref(pairs, "tidy_day"@, "Fri"@)
            &&& out.tidy_hour == number_pref(pairs, "tidy_hour"@, 0xffff_ffff, 17)
            &&& out.rolling_window_days == signed_pref(pairs, "rolling_window_days"@, 7)
            &&& out.max_candidates_per_day == number_pref(
                pairs,
                "max_candidates_per_day"@,
                usize::MAX as u64,
                12,
            )
            &&& out.thumbnail_max_size == number_pref(pairs, "thumbnail_max_size"@, 0xffff_ffff, 256)
            &&& out.auto_scan_enabled == bool_pref(pairs, "auto_scan_enabled"@, false)
            &&& out.scan_interval_hours == number_pref(
                pairs,
                "scan_interval_hours"@,
                0xffff_ffff,
                24,
            )
            &&& out.archive_age_threshold_days == number_pref(
                pairs,
                "archive_age_threshold_days"@,
                0xffff_ffff,
                7,
            )
            &&& out.delete_age_threshold_days == number_pref(
                pairs,
                "delete_age_threshold_days"@,
                0xffff_ffff,
                30,
            )
        }),
{
    UserPrefs {
        dry_run_default: read_bool(db, "dry_run_default", true),
        tidy_day: match db.get_preference("tidy_day") {
            Some(t) => t,
            None => String::from_str("Fri"),
        },
        tidy_hour: read_number(db, "tidy_hour", 0xffff_ffff, 17) as u32,
        rolling_window_days: match db.get_preference("rolling_window_days") {
            Some(t) => match crate::text::parse_signed(t.as_str()) {
                Some(v) => v,
                None => 7,
            },
            None => 7,
        },
        max_candidates_per_day: read_number(db, "max_candidates_per_day", usize::MAX as u64, 12)
            as usize,
        thumbnail_max_size: read_number(db, "thumbnail_max_size", 0xffff_ffff, 256) as u32,
        auto_scan_enabled: read_bool(db, "auto_scan_enabled", false),
        scan_interval_hours: read_number(db, "scan_interval_hours", 0xffff_ffff, 24) as u32,
        archive_age_threshold_days: read_number(db, "archive_age_threshold_days", 0xffff_ffff, 7)
            as u32,
        delete_age_threshold_days: read_number(db, "delete_age_threshold_days", 0xffff_ffff, 30)
            as u32,
    }
}

/// The first rule that the preferences break, as a number from 1 to 7 in
/// the order of the rules; 0 where they break none.
///
/// The rules: the tidy hour is at most 23; the window is from 1 to 365
/// days; the candidates a day are from 1 to 1000; the thumbnail size is
/// from 1 to 2048; a scan is due every 1 to 168 hours; the age thresholds
/// for archiving and for deleting are at most 365 days.
pub open spec fn broken_rule(p: PartialUserPrefs) -> int {
    if p.tidy_hour is Some && p.tidy_hour->0 > 23 {
        1
    } else if p.rolling_window_days is Some && (p.rolling_window_days->0 <= 0
        || p.rolling_window_days->0 > 365) {
        2
    } else if p.max_candidates_per_day is Some && (p.max_candidates_per_day->0 == 0
        || p.max_candidates_per_day->0 > 1000) {
        3
    } else if p.thumbnail_max_size is Some && (p.thumbnail_max_size->0 == 0
        || p.thumbnail_max_size->0 > 2048) {
        4
    } else if p.scan_interval_hours is Some && (p.scan_interval_hours->0 == 0
        || p.scan_interval_hours->0 > 168) {
        5
    } else if p.archive_age_threshold_days is Some && p.archive_age_threshold_days->0 > 365 {
        6
    } else if p.delete_age_threshold_days is Some && p.delete_age_threshold_days->0 > 365 {
        7
    } else {
        0
    }
}

/// What is said of a broken rule.
pub open spec fn rule_message(rule: int) -> Seq<char> {
    if rule == 1 {
        "tidy_hour must be 0-23"@
    } else if rule == 2 {
        "rolling_window_days must be 1-365"@
    } else if rule == 3 {
        "max_candidates_per_day must be 1-1000"@
    } else if rule == 4 {
        "thumbnail_max_size must be 1-2048"@
    } else if rule == 5 {
        "scan_interval_hours must be 1-168"@
    } else if rule == 6 {
        "archive_age_threshold_days must be 0-365"@
    } else {
        "delete_age_threshold_days must be 0-365"@
    }
}

/// Checks the preferences of a request against the rules; the first rule
/// that is broken decides the message.
pub fn validate_prefs(prefs: &PartialUserPrefs) -> (out: Result<(), CommandError>)
    ensures
        match out {
            Ok(_) => broken_rule(*prefs) == 0,
            Err(e) => broken_rule(*prefs) != 0 && e is Validation && e.detail() == rule_message(
                broken_rule(*prefs),
            ),
        },
{
    match prefs.tidy_hour {
        Some(v) => {
            if v > 23 {
                return Err(CommandError::Validation(String::from_str("tidy_hour must be 0-23")));
            }
        },
        None => {},
    }
    match prefs.rolling_window_days {
        Some(v) => {
            if v <= 0 || v > 365 {
                return Err(
                    CommandError::Validation(String::from_str("rolling_window_days must be 1-365")),
                );
            }
        },
        None => {},
    }
    match prefs.max_candidates_per_day {
        Some(v) => {
            if v == 0 || v > 1000 {
                return Err(
                    CommandError::Validation(
                        String::from_str("max_candidates_per_day must be 1-1000"),
                    ),
                );
            }
        },
        None => {},
    }
    match prefs.thumbnail_max_size {
        Some(v) => {
            if v == 0 || v > 2048 {
                return Err(
                    CommandError::Validation(String::from_str("thumbnail_max_size must be 1-2048")),
                );
            }
        },
        None => {},
    }
    match prefs.scan_interval_hours {
        Some(v) => {
            if v == 0 || v > 168 {
                return Err(
                    CommandError::Validation(String::from_str("scan_interval_hours must be 1-168")),
                );
            }
        },
        None => {},
    }
    match prefs.archive_age_threshold_days {
        Some(v) => {
            if v > 365 {
                return Err(
                    CommandError::Validation(
                        String::from_str("archive_age_threshold_days must be 0-365"),
                    ),
                );
            }
        },
        None => {},
    }
    match prefs.delete_age_threshold_days {
        Some(v) => {
            if v > 365 {
                return Err(
                    CommandError::Validation(
                        String::from_str("delete_age_threshold_days must be 0-365"),
                    ),
                );
            }
        },
        None => {},
    }
    Ok(())
}

/// The pairs with `key` set to the text `value` where one is given.
pub open spec fn with_optional(
    pairs: Seq<(Seq<char>, Seq<char>)>,
    key: Seq<char>,
    value: Option<Seq<char>>,
) -> Seq<(Seq<char>, Seq<char>)> {
    match value {
        Some(v) => crate::db::database::with_pref(pairs, key, v),
        None => pairs,
    }
}

/// The text of an optional truth value.
pub open spec fn opt_bool_text(v: Option<bool>) -> Option<Seq<char>> {
    match v {
        Some(b) => Some(crate::text::bool_text(b)),
        None => None,
    }
}

/// The pairs after the preferences of a request are stored, one after the
/// other: truth values as `true` or `false`, numbers as numerals, the tidy
/// day without control characters.
pub open spec fn prefs_after(pairs: Seq<(Seq<char>, Seq<char>)>, p: PartialUserPrefs) -> Seq<
    (Seq<char>, Seq<char>),
> {
    let s0 = with_optional(pairs, "dry_run_default"@, opt_bool_text(p.dry_run_default));
    let s1 = with_optional(
        s0,
        "tidy_day"@,
        match p.tidy_day {
            Some(d) => Some(sanitized(d@, 1024)),
            None => None,
        },
    );
    let s2 = with_optional(
        s1,
        "tidy_hour"@,
        match p.tidy_hour {
            Some(v) => Some(crate::text::decimal_text(v as nat)),
            None => None,
        },
    );
    let s3 = with_optional(
        s2,
        "rolling_window_days"@,
        match p.rolling_window_days {
            Some(v) => Some(crate::text::decimal_text(v as nat)),
            None => None,
        },
    );
    let s4 = with_optional(
        s3,
        "max_candidates_per_day"@,
        match p.max_candidates_per_day {
            Some(v) => Some(crate::text::decimal_text(v as nat)),
            None => None,
        },
    );
    let s5 = with_optional(
        s4,
        "thumbnail_max_size"@,
        match p.thumbnail_max_size {
            Some(v) => Some(crate::text::decimal_text(v as nat)),
            None => None,
        },
    );
    let s6 = with_optional(s5, "auto_scan_enabled"@, opt_bool_text(p.auto_scan_enabled));
    let s7 = with_optional(
        s6,
        "scan_interval_hours"@,
        match p.scan_interval_hours {
            Some(v) => Some(crate::text::decimal_text(v as nat)),
            None => None,
        },
    );
    let s8 = with_optional(
        s7,
        "archive_age_threshold_days"@,
        match p.archive_age_threshold_days {
            Some(v) => Some(crate::text::decimal_text(v as nat)),
            None => None,
        },
    );
    with_optional(
        s8,
        "delete_age_threshold_days"@,
        match p.delete_age_threshold_days {
            Some(v) => Some(crate::text::decimal_text(v as nat)),
            None => None,
        },
    )
}

fn store_number(db: &mut Database, key: &str, value: Option<u64>)
    requires
        old(db).wf(),
    ensures
        final(db).wf(),
        final(db).same_files(old(db)),
        final(db).actions() == old(db).actions(),
        final(db).next_action_id() == old(db).next_action_id(),
        final(db).roots() == old(db).roots(),
        final(db).next_root_id() == old(db).next_root_id(),
        crate::db::database::pref_views(final(db).prefs()) == with_optional(
            crate::db::database::pref_views(old(db).prefs()),
            key@,
            match value {
                Some(v) => Some(crate::text::decimal_text(v as nat)),
                None => None,
            },
        ),
{
    match value {
        Some(v) => {
            let text = crate::text::decimal_string(v);
            db.set_preference(key, text.as_str());
        },
        None => {},
    }
}

fn store_bool(db: &mut Database, key: &str, value: Option<bool>)
    requires
        old(db).wf(),
    ensures
        final(db).wf(),
        final(db).same_files(old(db)),
        final(db).actions() == old(db).actions(),
        final(db).next_action_id() == old(db).next_action_id(),
        final(db).roots() == old(db).roots(),
        final(db).next_root_id() == old(db).next_root_id(),
        crate::db::database::pref_views(final(db).prefs()) == with_optional(
            crate::db::database::pref_views(old(db).prefs()),
            key@,
            opt_bool_text(value),
        ),
{
    match value {
        Some(v) => {
            let text = crate::text::bool_to_string(v);
            db.set_preference(key, text.as_str());
        },
        None => {},
    }
}

/// Stores the preferences of a request, or none of them where one breaks
/// a rule.
pub fn set_prefs(prefs: &PartialUserPrefs, db: &mut Database) -> (out: Result<(), CommandError>)
    requires
        old(db).wf(),
    ensures
        final(db).wf(),
        final(db).same_files(old(db)),
        final(db).actions() == old(db).actions(),
        final(db).next_action_id() == old(db).next_action_id(),
        final(db).roots() == old(db).roots(),
        final(db).next_root_id() == old(db).next_root_id(),
        match out {
            Ok(_) => broken_rule(*prefs) == 0 && crate::db::database::pref_views(final(db).prefs())
                == prefs_after(crate::db::database::pref_views(old(db).prefs()), *prefs),
            Err(e) => broken_rule(*prefs) != 0 && e is Validation && e.detail() == rule_message(
                broken_rule(*prefs),
            ) && final(db).prefs() == old(db).prefs(),
        },
{
    match validate_prefs(prefs) {
        Err(e) => {
            return Err(e);
        },
        Ok(_) => {},
    }
    store_bool(db, "dry_run_default", prefs.dry_run_default);
    match &prefs.tidy_day {
        Some(day) => {
            let clean = sanitize_string(day.as_str());
            db.set_preference("tidy_day", clean.as_str());
        },
        None => {},
    }
    store_number(
        db,
        "tidy_hour",
        match prefs.tidy_hour {
            Some(v) => Some(v as u64),
            None => None,
        },
    );
    store_number(
        db,
        "rolling_window_days",
        match prefs.rolling_window_days {
            Some(v) => Some(v as u64),
            None => None,
        },
    );
    store_number(
        db,
        "max_candidates_per_day",
        match prefs.max_candidates_per_day {
            Some(v) => Some(v as u64),
            None => None,
        },
    );
    store_number(
        db,
        "thumbnail_max_size",
        match prefs.thumbnail_max_size {
            Some(v) => Some(v as u64),
            None => None,
        },
    );
    store_bool(db, "auto_scan_enabled", prefs.auto_scan_enabled);
    store_number(
        db,
        "scan_interval_hours",
        match prefs.scan_interval_hours {
            Some(v) => Some(v as u64),
            None => None,
        },
    );
    store_number(
        db,
        "archive_age_threshold_days",
        match prefs.archive_age_threshold_days {
            Some(v) => Some(v as u64),
            None => None,
        },
    );
    store_number(
        db,
        "delete_age_threshold_days",
        match prefs.delete_age_threshold_days {
            Some(v) => Some(v as u64),
            None => None,
        },
    );
    Ok(())
}

/// What an archive command did.
#[derive(Debug, Clone)]
pub struct ArchiveOutcome {
    pub success: bool,
    pub files_processed: usize,
    pub total_bytes: u64,
    pub duration_ms: u64,
    pub errors: Vec<String>,
    pub dry_run: bool,
}

/// What a delete command did.
#[derive(Debug, Clone)]
pub struct DeleteOutcome {
    pub success: bool,
    pub files_processed: usize,
    pub total_bytes_freed: u64,
    pub duration_ms: u64,
    pub errors: Vec<String>,
    pub to_trash: bool,
}

/// What a stage command did.
#[derive(Debug, Clone)]
pub struct StageOutcome {
    pub success: bool,
    pub batch_id: Option<String>,
    pub staged_files: usize,
    pub total_bytes: u64,
    pub duration_ms: u64,
    pub errors: Vec<String>,
    pub expires_at: Option<i64>,
    pub note: Option<String>,
}

/// What a stage command may say.
#[derive(Debug, Clone)]
pub struct StageOptions {
    pub cooloff_days: Option<i64>,
    pub note: Option<String>,
}

impl Default for StageOptions {
    fn default() -> (out: Self)
        ensures
            out.cooloff_days is None,
            out.note is None,
    {
        StageOptions { cooloff_days: None, note: None }
    }
}

/// One file of a group of duplicates, as the shell shows it.
#[derive(Debug, Clone)]
pub struct DuplicateGroupFile {
    pub id: i64,
    pub path: String,
    pub parent_dir: String,
    pub size_bytes: u64,
    pub last_seen_at: i64,
    pub is_staged: bool,
    pub cooloff_until: Option<i64>,
}

/// A group of duplicates, as the shell shows it.
#[derive(Debug, Clone)]
pub struct DuplicateGroup {
    pub hash: String,
    pub total_size: u64,
    pub count: usize,
    pub files: Vec<DuplicateGroupFile>,
}

/// A staged file, as the shell shows it.
#[derive(Debug, Clone)]
pub struct StagedFile {
    pub record_id: i64,
    pub file_id: i64,
    pub path: String,
    pub parent_dir: String,
    pub size_bytes: u64,
    pub status: String,
    pub staged_at: i64,
    pub expires_at: Option<i64>,
    pub batch_id: Option<String>,
    pub note: Option<String>,
    pub cooloff_until: Option<i64>,
}

/// A watched root, as the shell shows it.
#[derive(Debug, Clone)]
pub struct WatchedFolder {
    pub id: i64,
    pub path: String,
    pub name: String,
    pub is_accessible: bool,
}

/// One entry of a directory listing.
#[derive(Debug, Clone)]
pub struct DirectoryEntry {
    pub name: String,
    pub path: String,
    /// `dir` or `file`.
    pub kind: String,
    pub size: u64,
    pub modified: i64,
}

impl Duplicate for DirectoryEntry {
    fn duplicate(&self) -> (r: Self) {
        DirectoryEntry {
            name: self.name.clone(),
            path: self.path.clone(),
            kind: self.kind.clone(),
            size: self.size,
            modified: self.modified,
        }
    }
}

/// A batch that can be undone, as the shell shows it.
#[derive(Debug, Clone)]
pub struct UndoBatchSummary {
    pub batch_id: String,
    pub action_type: String,
    pub file_count: usize,
    /// When the batch was made, in seconds since the Unix epoch.
    pub created_at: i64,
}

/// What the shell is told about the system.
#[derive(Debug, Clone)]
pub struct PlatformInfo {
    pub os: String,
    pub open_label: String,
}

/// The name under which a watched root is shown: its file name, or the
/// whole path where it has none.
pub open spec fn folder_name(path: Seq<char>) -> Seq<char> {
    if file_name(path).len() == 0 {
        path
    } else {
        file_name(path)
    }
}

/// The watched root as the shell shows it; `is_accessible` says whether it
/// is there.
pub fn watched_root_to_folder(root: WatchedRoot, is_accessible: bool) -> (out: WatchedFolder)
    ensures
        out.id == root.id,
        out.path@ == root.path@,
        out.name@ == folder_name(root.path@),
        out.is_accessible == is_accessible,
{
    let name = file_name_of(root.path.as_str());
    let shown = if chars_of(name.as_str()).len() == 0 {
        root.path.clone()
    } else {
        name
    };
    WatchedFolder { id: root.id, path: root.path, name: shown, is_accessible }
}

/// The staged record and its file as the shell shows them.
pub fn staged_payload(record: &StagedFileRecord, file: &File) -> (out: StagedFile)
    ensures
        out.record_id == record.id,
        out.file_id == record.file_id,
        out.path == file.path,
        out.parent_dir == file.parent_dir,
        out.size_bytes == file.size_bytes,
        out.status@ == record.status.name(),
        out.staged_at == record.staged_at,
        out.expires_at == record.expires_at,
        out.batch_id == record.batch_id,
        out.note == record.note,
        out.cooloff_until == file.cooloff_until,
{
    StagedFile {
        record_id: record.id,
        file_id: record.file_id,
        path: file.path.clone(),
        parent_dir: file.parent_dir.clone(),
        size_bytes: file.size_bytes,
        status: record.status.to_string(),
        staged_at: record.staged_at,
        expires_at: record.expires_at,
        batch_id: record.batch_id.duplicate(),
        note: record.note.duplicate(),
        cooloff_until: file.cooloff_until,
    }
}

/// The statuses that the names stand for; a name that is no status,
/// whatever its case, stands for none.
pub open spec fn statuses_named(names: Seq<String>) -> Seq<StagedStatus>
    decreases names.len(),
{
    if names.len() == 0 {
        Seq::empty()
    } else {
        let rest = statuses_named(names.drop_last());
        let lower = lowercase_text(names.last()@);
        if lower == "staged"@ {
            rest.push(StagedStatus::Staged)
        } else if lower == "restored"@ {
            rest.push(StagedStatus::Restored)
        } else if lower == "emptied"@ {
            rest.push(StagedStatus::Emptied)
        } else {
            rest
        }
    }
}

/// The staged files, by ascending file identifier; only those whose
/// status is named in `statuses` where a filter is given.
pub fn list_staged(statuses: &Option<Vec<String>>, db: &Database) -> (out: Vec<StagedFile>)
    requires
        db.wf(),
    ensures
        ({
            let pairs = crate::db::database::staged_pairs(
                db.files(),
                db.slots(),
                match *statuses {
                    Some(names) => Some(statuses_named(names@)),
                    None => None,
                },
            );
            &&& out@.len() == pairs.len()
            &&& forall|k: int|
                0 <= k < out@.len() ==> {
                    &&& (#[trigger] out@[k]).record_id == pairs[k].0.id
                    &&& out@[k].file_id == pairs[k].0.file_id
                    &&& out@[k].path == pairs[k].1.path
                    &&& out@[k].parent_dir == pairs[k].1.parent_dir
                    &&& out@[k].cooloff_until == pairs[k].1.cooloff_until
                    &&& out@[k].size_bytes == pairs[k].1.size_bytes
                    &&& out@[k].status@ == pairs[k].0.status.name()
                    &&& out@[k].staged_at == pairs[k].0.staged_at
                    &&& out@[k].expires_at == pairs[k].0.expires_at
                    &&& out@[k].batch_id == pairs[k].0.batch_id
                    &&& out@[k].note == pairs[k].0.note
                }
        }),
{
    let pairs = match statuses {
        Some(names) => {
            let mut wanted: Vec<StagedStatus> = Vec::new();
            let mut i: usize = 0;
            assert(names@.take(0) =~= Seq::<String>::empty());
            while i < names.len()
                invariant
                    i <= names.len(),
                    wanted@ == statuses_named(names@.take(i as int)),
                decreases names.len() - i,
            {
                proof {
                    assert(names@.take(i + 1).drop_last() == names@.take(i as int));
                    assert(names@.take(i + 1).last() == names@[i as int]);
                }
                let lower = to_lowercase(names[i].as_str());
                match StagedStatus::from_str(lower.as_str()) {
                    Some(status) => {
                        proof {
                            reveal_strlit("staged");
                            reveal_strlit("restored");
                            reveal_strlit("emptied");
                            assert("staged"@[0] != "restored"@[0]);
                            assert("staged"@[0] != "emptied"@[0]);
                            assert("restored"@[0] != "emptied"@[0]);
                        }
                        wanted.push(status);
                    },
                    None => {},
                }
                i = i + 1;
            }
            assert(names@.take(names@.len() as int) == names@);
            db.list_staged_with_files(Some(&wanted))
        },
        None => db.list_staged_with_files(None),
    };
    let mut out: Vec<StagedFile> = Vec::new();
    let mut k: usize = 0;
    while k < pairs.len()
        invariant
            k <= pairs.len(),
            out@.len() == k,
            forall|j: int|
                0 <= j < k ==> {
                    &&& (#[trigger] out@[j]).record_id == pairs@[j].0.id
                    &&& out@[j].file_id == pairs@[j].0.file_id
                    &&& out@[j].path == pairs@[j].1.path
                    &&& out@[j].parent_dir == pairs@[j].1.parent_dir
                    &&& out@[j].cooloff_until == pairs@[j].1.cooloff_until
                    &&& out@[j].size_bytes == pairs@[j].1.size_bytes
                    &&& out@[j].status@ == pairs@[j].0.status.name()
                    &&& out@[j].staged_at == pairs@[j].0.staged_at
                    &&& out@[j].expires_at == pairs@[j].0.expires_at
                    &&& out@[j].batch_id == pairs@[j].0.batch_id
                    &&& out@[j].note == pairs@[j].0.note
                },
        decreases pairs.len() - k,
    {
        out.push(staged_payload(&pairs[k].0, &pairs[k].1));
        k = k + 1;
    }
    out
}

/// The largest number of duplicate groups that is listed: what is asked
/// for, 20 where nothing is asked for, and never more than 200.
pub open spec fn group_limit(limit: Option<usize>) -> usize {
    let asked = if limit is Some {
        limit->0
    } else {
        20
    };
    if asked > 200 {
        200
    } else {
        asked
    }
}

/// The file shows the entry.
pub open spec fn shows_file(g: DuplicateGroupFile, f: File) -> bool {
    &&& g.id == crate::selector::id_of(f)
    &&& g.path == f.path
    &&& g.parent_dir == f.parent_dir
    &&& g.size_bytes == f.size_bytes
    &&& g.last_seen_at == f.last_seen_at
    &&& g.is_staged == f.is_staged
    &&& g.cooloff_until == f.cooloff_until
}

/// The group shows the live files with the digest `digest`, largest
/// first, and what they add up to.
pub open spec fn shows_group(g: DuplicateGroup, files: Seq<File>, digest: Seq<char>) -> bool {
    let members = duplicate_members(files, digest);
    &&& g.hash@ == digest
    &&& g.count == members.len()
    &&& g.count >= 2
    &&& g.total_size == crate::db::database::total_size(members)
    &&& g.files@.len() == members.len()
    &&& forall|m: int|
        0 <= m < members.len() ==> shows_file(#[trigger] g.files@[m], members[m])
            && is_live_copy_with_digest(files, digest, members[m])
}

/// The groups of live files that share a full digest, larger groups
/// first, at most `limit` of them and never more than 200; each with the
/// sum of the sizes of its files.
///
/// Every group has two files or more, and every file of a group has the
/// digest of the group.
pub fn get_duplicate_groups(limit: Option<usize>, db: &Database) -> (out: Vec<DuplicateGroup>)
    requires
        db.wf(),
    ensures
        ({
            let digests = duplicate_digests(db.files(), Some(group_limit(limit)));
            &&& out@.len() == digests.len()
            &&& forall|k: int|
                0 <= k < out@.len() ==> shows_group(#[trigger] out@[k], db.files(), digests[k])
        }),
{
    let asked = match limit {
        Some(n) => n,
        None => 20,
    };
    let fetch_limit = if asked > 200 {
        200
    } else {
        asked
    };
    let groups = db.duplicate_groups(Some(fetch_limit));
    let ghost digests = duplicate_digests(db.files(), Some(group_limit(limit)));
    let mut out: Vec<DuplicateGroup> = Vec::new();
    let mut i: usize = 0;
    while i < groups.len()
        invariant
            i <= groups.len(),
            out@.len() == i,
            groups@.len() == digests.len(),
            forall|k: int|
                0 <= k < groups@.len() ==> (#[trigger] groups@[k]).0@ == digests[k] && groups@[k].1@
                    == duplicate_members(db.files(), groups@[k].0@),
            forall|k: int| 0 <= k < groups@.len() ==> (#[trigger] groups@[k]).1@.len() >= 2,
            forall|k: int, m: int|
                0 <= k < groups@.len() && 0 <= m < groups@[k].1@.len()
                    ==> is_live_copy_with_digest(
                    db.files(),
                    groups@[k].0@,
                    #[trigger] groups@[k].1@[m],
                ),
            forall|k: int|
                0 <= k < i ==> shows_group(#[trigger] out@[k], db.files(), digests[k]),
        decreases groups.len() - i,
    {
        let files = &groups[i].1;
        let mut shown: Vec<DuplicateGroupFile> = Vec::new();
        let mut m: usize = 0;
        while m < files.len()
            invariant
                m <= files.len(),
                shown@.len() == m,
                forall|x: int| 0 <= x < m ==> shows_file(#[trigger] shown@[x], files@[x]),
            decreases files.len() - m,
        {
            let f = &files[m];
            shown.push(
                DuplicateGroupFile {
                    id: match f.id {
                        Some(id) => id,
                        None => 0,
                    },
                    path: f.path.clone(),
                    parent_dir: f.parent_dir.clone(),
                    size_bytes: f.size_bytes,
                    last_seen_at: f.last_seen_at,
                    is_staged: f.is_staged,
                    cooloff_until: f.cooloff_until,
                },
            );
            m = m + 1;
        }
        let total_size = crate::db::database::sum_sizes(files);
        let group = DuplicateGroup {
            hash: groups[i].0.clone(),
            total_size,
            count: shown.len(),
            files: shown,
        };
        proof {
            let members = duplicate_members(db.files(), digests[i as int]);
            assert(groups@[i as int].0@ == digests[i as int]);
            assert(files@ == members);
            assert forall|m: int| 0 <= m < members.len() implies shows_file(
                #[trigger] group.files@[m],
                members[m],
            ) && is_live_copy_with_digest(db.files(), digests[i as int], members[m]) by {
                assert(is_live_copy_with_digest(
                    db.files(),
                    groups@[i as int].0@,
                    groups@[i as int].1@[m],
                ));
            }
            assert(shows_group(group, db.files(), digests[i as int]));
        }
        out.push(group);
        i = i + 1;
    }
    out
}

/// The batches that can be undone, newest first, as the shell shows
/// them.
pub fn list_undoable_batches(db: &Database) -> (out: Vec<UndoBatchSummary>)
    requires
        db.wf(),
    ensures
        out@.len() == crate::db::database::undoable_batches(db.actions()).len(),
        forall|k: int|
            0 <= k < out@.len() ==> {
                let id = crate::db::database::undoable_batches(db.actions())[k];
                let members = db.actions().filter(crate::db::database::in_batch(id));
                let first = crate::order::arranged(
                    members,
                    crate::db::database::created_asc_keys(members),
                )[0];
                &&& (#[trigger] out@[k]).batch_id@ == id
                &&& out@[k].action_type@ == first.action.name()
                &&& out@[k].file_count == members.len()
                &&& out@[k].created_at == crate::clock::whole_seconds(first.created_at)
            },
{
    let undo = crate::ops::undo::UndoManager::new();
    let batches = undo.get_undoable_batches(db);
    let mut out: Vec<UndoBatchSummary> = Vec::new();
    let mut i: usize = 0;
    while i < batches.len()
        invariant
            i <= batches.len(),
            out@.len() == i,
            forall|k: int|
                0 <= k < i ==> {
                    &&& (#[trigger] out@[k]).batch_id@ == batches@[k].batch_id@
                    &&& out@[k].action_type@ == batches@[k].action_type.name()
                    &&& out@[k].file_count == batches@[k].file_count
                    &&& out@[k].created_at == crate::clock::whole_seconds(batches@[k].created_at)
                },
        decreases batches.len() - i,
    {
        let b = &batches[i];
        out.push(
            UndoBatchSummary {
                batch_id: b.batch_id.clone(),
                action_type: b.action_type.to_string(),
                file_count: b.file_count,
                created_at: crate::clock::seconds_of(b.created_at),
            },
        );
        i = i + 1;
    }
    out
}

/// What an archive run did, as the shell is told: a success where no file
/// failed.
pub fn archive_outcome(result: crate::ops::archive::ArchiveResult) -> (out: ArchiveOutcome)
    ensures
        out.success == (result.errors@.len() == 0),
        out.files_processed == result.files_archived,
        out.total_bytes == result.total_bytes,
        out.duration_ms == result.duration_ms,
        out.errors == result.errors,
        !out.dry_run,
{
    ArchiveOutcome {
        success: result.errors.len() == 0,
        files_processed: result.files_archived,
        total_bytes: result.total_bytes,
        duration_ms: result.duration_ms,
        errors: result.errors,
        dry_run: false,
    }
}

/// What a delete run did, as the shell is told: a success where no file
/// failed.
pub fn delete_outcome(result: crate::ops::delete::DeleteResult, to_trash: bool) -> (out:
    DeleteOutcome)
    ensures
        out.success == (result.errors@.len() == 0),
        out.files_processed == result.files_deleted,
        out.total_bytes_freed == result.total_bytes_freed,
        out.duration_ms == result.duration_ms,
        out.errors == result.errors,
        out.to_trash == to_trash,
{
    DeleteOutcome {
        success: result.errors.len() == 0,
        files_processed: result.files_deleted,
        total_bytes_freed: result.total_bytes_freed,
        duration_ms: result.duration_ms,
        errors: result.errors,
        to_trash,
    }
}

/// The number of days for which staged files cool off: what is asked for,
/// 7 where nothing is asked for, held to the range from 0 to 30.
pub fn cooloff_days_of(options: &StageOptions) -> (days: i64)
    ensures
        days == (match options.cooloff_days {
            Some(d) => if d < 0 {
                0
            } else if d > 30 {
                30
            } else {
                d
            },
            None => 7,
        }),
{
    match options.cooloff_days {
        Some(d) => if d < 0 {
            0
        } else if d > 30 {
            30
        } else {
            d
        },
        None => 7,
    }
}

/// When files staged at `now` may be emptied: after the cool-off, or never
/// on their own where there is none.
pub fn stage_expiry(cooloff_days: i64, now: i64) -> (out: Option<i64>)
    requires
        0 <= cooloff_days <= 30,
    ensures
        cooloff_days == 0 ==> out is None,
        cooloff_days > 0 ==> out == Some(
            if now + cooloff_days * 86400000 > i64::MAX {
                i64::MAX
            } else {
                (now + cooloff_days * 86400000) as i64
            },
        ),
{
    if cooloff_days == 0 {
        None
    } else {
        let sum: i128 = now as i128 + (cooloff_days as i128) * 86400000;
        Some(if sum > i64::MAX as i128 {
            i64::MAX
        } else {
            sum as i64
        })
    }
}

/// Checks a request for candidates: the total must be from 1 to 1000.
pub fn validate_max_total(max_total: usize) -> (out: Result<(), CommandError>)
    ensures
        match out {
            Ok(_) => 0 < max_total <= 1000,
            Err(e) => e is Validation && (if max_total == 0 {
                e.detail() == "max_total must be greater than 0"@
            } else {
                max_total > 1000 && e.detail() == "max_total too large (max 1000)"@
            }),
        },
{
    if max_total == 0 {
        return Err(CommandError::Validation(String::from_str("max_total must be greater than 0")));
    }
    if max_total > 1000 {
        return Err(CommandError::Validation(String::from_str("max_total too large (max 1000)")));
    }
    Ok(())
}

/// Checks a request for files to review: the age is at most 365 days.
/// Nothing is proposed for review on its own.
pub fn get_review_items(min_age_days: u32) -> (out: Result<Vec<StagedFile>, CommandError>)
    ensures
        match out {
            Ok(items) => min_age_days <= 365 && items@.len() == 0,
            Err(e) => min_age_days > 365 && e is Validation && e.detail()
                == "min_age_days too large (max 365)"@,
        },
{
    if min_age_days > 365 {
        return Err(CommandError::Validation(String::from_str("min_age_days too large (max 365)")));
    }
    Ok(Vec::new())
}

/// Checks a request for a thumbnail: the identifier is above zero and the
/// size is from 1 to 2048 pixels.
pub fn validate_thumbnail_request(file_id: i64, max_px: u32) -> (out: Result<(), CommandError>)
    ensures
        match out {
            Ok(_) => file_id > 0 && 0 < max_px <= 2048,
            Err(e) => e is Validation && (if file_id <= 0 {
                e.detail() == "Invalid file ID"@
            } else {
                (max_px == 0 || max_px > 2048) && e.detail()
                    == "Invalid thumbnail size (1-2048px)"@
            }),
        },
{
    if file_id <= 0 {
        return Err(CommandError::Validation(String::from_str("Invalid file ID")));
    }
    if max_px == 0 || max_px > 2048 {
        return Err(
            CommandError::Validation(String::from_str("Invalid thumbnail size (1-2048px)")),
        );
    }
    Ok(())
}

/// What the shell is told about the system.
pub fn get_platform_info(platform: crate::ops::delete::Platform, os_name: &str) -> (out:
    PlatformInfo)
    ensures
        match platform {
            crate::ops::delete::Platform::Windows => out.os@ == "windows"@ && out.open_label@
                == "Open in File Explorer"@,
            crate::ops::delete::Platform::MacOs => out.os@ == "macos"@ && out.open_label@
                == "Open in Finder"@,
            crate::ops::delete::Platform::Linux => out.os@ == "linux"@ && out.open_label@
                == "Open in File Manager"@,
            crate::ops::delete::Platform::Other => out.os@ == os_name@ && out.open_label@
                == "Open in File Manager"@,
        },
{
    match platform {
        crate::ops::delete::Platform::Windows => PlatformInfo {
            os: String::from_str("windows"),
            open_label: String::from_str("Open in File Explorer"),
        },
        crate::ops::delete::Platform::MacOs => PlatformInfo {
            os: String::from_str("macos"),
            open_label: String::from_str("Open in Finder"),
        },
        crate::ops::delete::Platform::Linux => PlatformInfo {
            os: String::from_str("linux"),
            open_label: String::from_str("Open in File Manager"),
        },
        crate::ops::delete::Platform::Other => PlatformInfo {
            os: String::from_str(os_name),
            open_label: String::from_str("Open in File Manager"),
        },
    }
}

/// Where the catalog is kept: `white-space/database.db` under the data
/// directory of the user. Without a data directory there is no place.
pub fn get_db_path(data_dir: &Option<String>) -> (out: Result<String, CommandError>)
    ensures
        match out {
            Ok(p) => data_dir is Some && p@ == crate::paths::joined(
                crate::paths::joined(data_dir->0@, "white-space"@),
                "database.db"@,
            ),
            Err(e) => data_dir is None && e is Internal && e.detail()
                == "Failed to get app data dir"@,
        },
{
    match data_dir {
        Some(dir) => {
            let app = crate::paths::join(dir.as_str(), "white-space");
            Ok(crate::paths::join(app.as_str(), "database.db"))
        },
        None => Err(CommandError::Internal(String::from_str("Failed to get app data dir"))),
    }
}

/// The key by which an entry of a listing is sorted: directories before
/// files, then by the lower-case form of the name.
pub open spec fn entry_key(e: DirectoryEntry) -> Seq<int> {
    seq![
        if e.kind@ == "dir"@ {
            0int
        } else {
            1int
        },
    ] + code_points(lowercase_text(e.name@))
}

/// For each entry its key.
pub open spec fn entry_keys(entries: Seq<DirectoryEntry>) -> Seq<Seq<int>> {
    Seq::new(entries.len(), |i: int| entry_key(entries[i]))
}

/// The entries of a directory in the order of a listing: directories
/// first, then by name, whatever the case.
pub fn list_directory_entries(entries: &Vec<DirectoryEntry>) -> (out: Vec<DirectoryEntry>)
    ensures
        out@ == crate::order::arranged(entries@, entry_keys(entries@)),
{
    let mut keys: Vec<Vec<i128>> = Vec::new();
    let mut i: usize = 0;
    while i < entries.len()
        invariant
            i <= entries.len(),
            keys@.len() == i,
            forall|j: int|
                0 <= j < i ==> crate::order::ints((#[trigger] keys@[j])@) == entry_key(entries@[j]),
        decreases entries.len() - i,
    {
        let e = &entries[i];
        let mut key: Vec<i128> = Vec::new();
        if crate::text::same_text(e.kind.as_str(), "dir") {
            key.push(0);
        } else {
            key.push(1);
        }
        let lower = chars_of(to_lowercase(e.name.as_str()).as_str());
        let mut k: usize = 0;
        while k < lower.len()
            invariant
                k <= lower.len(),
                key@.len() == k + 1,
                key@[0] == (if e.kind@ == "dir"@ {
                    0int
                } else {
                    1int
                }),
                forall|x: int| 0 <= x < k ==> key@[x + 1] == lower@[x] as u32 as int,
            decreases lower.len() - k,
        {
            let c = lower[k];
            let u: u32 = c as u32;
            key.push(u as i128);
            k = k + 1;
        }
        assert(crate::order::ints(key@) =~= entry_key(*e));
        keys.push(key);
        i = i + 1;
    }
    assert(crate::order::key_views(keys@) =~= entry_keys(entries@));
    crate::seqs::arrange(entries, &keys)
}

/// Removes the watched root with the identifier `id` and returns its
/// path. An identifier that is not above zero is a validation error; one
/// that no root has is not found.
pub fn remove_folder(id: i64, db: &mut Database) -> (out: Result<String, CommandError>)
    requires
        old(db).wf(),
    ensures
        final(db).wf(),
        final(db).same_files(old(db)),
        final(db).actions() == old(db).actions(),
        final(db).prefs() == old(db).prefs(),
        match out {
            Ok(path) => {
                &&& id > 0
                &&& crate::db::database::has_root(old(db).roots(), path@)
                &&& old(db).roots()[crate::db::database::index_of_root(old(db).roots(), path@)].id
                    == id
                &&& final(db).roots() == old(db).roots().remove(
                    crate::db::database::index_of_root(old(db).roots(), path@),
                )
            },
            Err(e) => {
                &&& final(db).roots() == old(db).roots()
                &&& if id <= 0 {
                    e is Validation && e.detail() == "Invalid folder id"@
                } else {
                    e is NotFound && e.detail() == "Watched folder not found"@ && forall|i: int|
                        0 <= i < old(db).roots().len() ==> (#[trigger] old(db).roots()[i]).id != id
                }
            },
        },
{
    if id <= 0 {
        return Err(CommandError::Validation(String::from_str("Invalid folder id")));
    }
    match db.get_watched_root_by_id(id) {
        Some(root) => {
            proof {
                let w = choose|w: int| 0 <= w < db.roots().len() && db.roots()[w] == root;
                assert(db.roots()[w].path@ == root.path@);
                assert(crate::db::database::has_root(db.roots(), root.path@));
                let c = crate::db::database::index_of_root(db.roots(), root.path@);
                if c < w {
                    assert(db.roots()[c].path@ != db.roots()[w].path@);
                } else if w < c {
                    assert(db.roots()[w].path@ != db.roots()[c].path@);
                }
            }
            db.delete_watched_root(root.path.as_str());
            Ok(root.path)
        },
        None => Err(CommandError::NotFound(String::from_str("Watched folder not found"))),
    }
}

/// Why a directory cannot be registered as a watched root, from 1 to 4;
/// 0 where it can.
///
/// The reasons: the path does not pass the rules for paths; it is no
/// directory; its canonical form is a file-system root; it is not
/// registered yet and no identifier is left.
pub open spec fn add_verdict(path: Seq<char>, probe: PathProbe, db: &Database) -> int {
    if path_verdict(path, probe.exists) != 0 {
        1
    } else if !probe.is_dir {
        2
    } else if is_root(normal_form(path, probe)) {
        3
    } else if !crate::db::database::has_root(db.roots(), normal_form(path, probe))
        && db.next_root_id() == i64::MAX {
        4
    } else {
        0
    }
}

/// Registers a directory as a watched root at `now`.
///
/// The path must pass `validate_path`; what is registered is its
/// canonical form, which must be a directory and no file-system root. A
/// directory that is registered already keeps its identifier.
pub fn add_folder(path: &str, probe: &PathProbe, db: &mut Database, now: i64) -> (out: Result<
    WatchedFolder,
    CommandError,
>)
    requires
        old(db).wf(),
    ensures
        final(db).wf(),
        final(db).same_files(old(db)),
        final(db).actions() == old(db).actions(),
        final(db).prefs() == old(db).prefs(),
        out is Ok <==> add_verdict(path@, *probe, old(db)) == 0,
        out is Err ==> final(db).roots() == old(db).roots(),
        out matches Ok(folder) ==> {
            &&& folder.path@ == normal_form(path@, *probe)
            &&& folder.name@ == folder_name(folder.path@)
            &&& folder.is_accessible == probe.exists
            &&& crate::db::database::has_root(final(db).roots(), folder.path@)
            &&& folder.id == final(db).roots()[crate::db::database::index_of_root(
                final(db).roots(),
                folder.path@,
            )].id
            &&& crate::db::database::has_root(old(db).roots(), folder.path@) ==> final(db).roots()
                == old(db).roots()
            &&& !crate::db::database::has_root(old(db).roots(), folder.path@) ==> {
                &&& final(db).roots().drop_last() == old(db).roots()
                &&& final(db).roots().last().created_at == now
                &&& final(db).roots().last().id == folder.id
                &&& final(db).roots().last().path@ == folder.path@
            }
        },
        out matches Err(e) ==> {
            let verdict = add_verdict(path@, *probe, old(db));
            &&& verdict == 1 ==> {
                &&& path_verdict(path@, probe.exists) == 1 ==> e is Validation && e.detail()
                    == "Path traversal not allowed"@
                &&& path_verdict(path@, probe.exists) == 2 ==> e is NotFound && e.detail()
                    == "Path does not exist: "@ + path@
                &&& path_verdict(path@, probe.exists) == 3 ==> e is Permission && e.detail()
                    == "Watching the system root is not supported"@
            }
            &&& verdict == 2 ==> e is Validation && e.detail() == "Path is not a directory: "@
                + path@
            &&& verdict == 3 ==> e is Validation && e.detail()
                == "Watching the system root is not supported"@
            &&& verdict == 4 ==> e is Database && e.detail() == "no identifier left"@
        },
{
    match validate_path(path, probe.exists) {
        Err(e) => {
            return Err(e);
        },
        Ok(_) => {},
    }
    let normalized = match normalize_directory_path(path, probe) {
        Err(e) => {
            return Err(e);
        },
        Ok(p) => p,
    };
    if crate::paths::is_system_root(normalized.as_str()) {
        return Err(
            CommandError::Validation(String::from_str("Watching the system root is not supported")),
        );
    }
    let id = match db.upsert_watched_root(normalized.as_str(), now) {
        Ok(id) => id,
        Err(e) => {
            return Err(CommandError::from_store(e));
        },
    };
    proof {
        if !crate::db::database::has_root(old(db).roots(), normalized@) {
            let n = old(db).roots().len() as int;
            assert(db.roots()[n].path@ == normalized@);
        } else {
            let w = crate::db::database::index_of_root(old(db).roots(), normalized@);
            assert(db.roots()[w].path@ == normalized@);
        }
        let at = crate::db::database::index_of_root(db.roots(), normalized@);
        assert(db.roots()[at].id == id) by {
            if !crate::db::database::has_root(old(db).roots(), normalized@) {
                let n = old(db).roots().len() as int;
                if at != n {
                    assert(old(db).roots()[at].path@ == normalized@);
                }
            }
        }
    }
    let root = WatchedRoot { id, path: normalized, created_at: now };
    Ok(watched_root_to_folder(root, probe.exists))
}

/// The form under which a directory is registered.
pub open spec fn normal_form(path: Seq<char>, probe: PathProbe) -> Seq<char> {
    if probe.exists && probe.canonical is Some {
        probe.canonical->0@
    } else {
        path
    }
}

/// Refuses a text that holds nothing but white space, with `message`.
pub fn require_text(value: &str, message: &str) -> (out: Result<(), CommandError>)
    ensures
        match out {
            Ok(_) => crate::text::trimmed_text(value@).len() > 0,
            Err(e) => crate::text::trimmed_text(value@).len() == 0 && e is Validation
                && e.detail() == message@,
        },
{
    if crate::text::is_blank(value) {
        Err(CommandError::Validation(String::from_str(message)))
    } else {
        Ok(())
    }
}

/// The roots of a scan that is asked for at once: at least one and at
/// most ten, each of which must pass the rules for scan paths and be a
/// directory. Control characters are taken out, and a root that occurs
/// twice counts once.
pub fn scan_roots(roots: &Vec<crate::scanner::RootFacts>) -> (out: Result<
    Vec<String>,
    CommandError,
>)
    ensures
        match out {
            Ok(clean) => {
                &&& 0 < roots@.len() <= 10
                &&& forall|i: int|
                    0 <= i < roots@.len() ==> crate::scanner::scannable(#[trigger] roots@[i])
                &&& crate::db::database::string_views(clean@) == crate::scanner::clean_roots(
                    roots@,
                )
            },
            Err(e) => if roots@.len() == 0 {
                e is Validation && e.detail() == "No scan roots provided"@
            } else if roots@.len() > 10 {
                e is Validation && e.detail() == "Too many scan roots (max 10)"@
            } else {
                exists|i: int|
                    {
                        &&& 0 <= i < roots@.len()
                        &&& !crate::scanner::scannable(#[trigger] roots@[i])
                        &&& forall|j: int|
                            0 <= j < i ==> crate::scanner::scannable(#[trigger] roots@[j])
                        &&& crate::scanner::refuses_root(e, roots@[i])
                    }
            },
        },
{
    if roots.len() == 0 {
        return Err(CommandError::Validation(String::from_str("No scan roots provided")));
    }
    if roots.len() > 10 {
        return Err(CommandError::Validation(String::from_str("Too many scan roots (max 10)")));
    }
    crate::scanner::start_scan(roots)
}

/// The thumbnail of a file: a one-pixel picture, the same for every file.
///
/// The request must pass `validate_thumbnail_request`; the file entry must
/// be there, its path must pass `validate_path`, and the file must be on
/// disk.
pub fn get_thumbnail(file_id: i64, max_px: u32, db: &Database, on_disk: bool) -> (out: Result<
    String,
    CommandError,
>)
    requires
        db.wf(),
    ensures
        out is Ok <==> file_id > 0 && 0 < max_px <= 2048 && db.has_id(file_id) && path_verdict(
            db.files()[db.index_of_id(file_id)].path@,
            on_disk,
        ) == 0 && on_disk,
        out matches Ok(data) ==> data@ == ONE_PIXEL@,
        out matches Err(e) ==> if file_id <= 0 {
            e is Validation && e.detail() == "Invalid file ID"@
        } else if max_px == 0 || max_px > 2048 {
            e is Validation && e.detail() == "Invalid thumbnail size (1-2048px)"@
        } else if !db.has_id(file_id) {
            e is NotFound && e.detail() == "File with ID "@ + crate::text::signed_decimal_text(
                file_id as int,
            ) + " not found"@
        } else {
            let path = db.files()[db.index_of_id(file_id)].path@;
            let verdict = path_verdict(path, on_disk);
            if verdict == 1 {
                e is Validation && e.detail() == "Path traversal not allowed"@
            } else if verdict == 2 {
                e is NotFound && e.detail() == "Path does not exist: "@ + path
            } else if verdict == 3 {
                e is Permission && e.detail() == "Watching the system root is not supported"@
            } else {
                e is NotFound && e.detail() == "File does not exist on disk"@
            }
        },
{
    match validate_thumbnail_request(file_id, max_px) {
        Err(e) => {
            return Err(e);
        },
        Ok(_) => {},
    }
    let file = match db.get_file_by_id(file_id) {
        Some(f) => f,
        None => {
            let a = join2("File with ID ", crate::text::signed_decimal_string(file_id).as_str());
            return Err(CommandError::NotFound(join2(a.as_str(), " not found")));
        },
    };
    match validate_path(file.path.as_str(), on_disk) {
        Err(e) => {
            return Err(e);
        },
        Ok(_) => {},
    }
    if !on_disk {
        return Err(CommandError::NotFound(String::from_str("File does not exist on disk")));
    }
    Ok(String::from_str(ONE_PIXEL))
}

/// A picture of one pixel, as a data address.
pub const ONE_PIXEL: &'static str =
    "data:image/png;base64,iVBORw0KGgoAAAANSUhEUgAAAAEAAAABCAYAAAAfFcSJAAAADUlEQVR42mP8/5+hHgAHggJ/PchI7wAAAABJRU5ErkJggg==";

/// The test for an archive action.
pub open spec fn is_archive() -> spec_fn(crate::models::Action) -> bool {
    |a: crate::models::Action| a.action == crate::models::ActionType::Archive
}

/// The file identifiers of the actions.
pub open spec fn file_ids_of(actions: Seq<crate::models::Action>) -> Seq<i64> {
    Seq::new(actions.len(), |i: int| actions[i].file_id)
}

/// The files that the batch `batch_id` archived, by their identifiers, in
/// the order of the actions. A blank batch identifier is a validation
/// error; a batch that archived nothing is not found.
pub fn restore_staged(batch_id: &str, db: &Database) -> (out: Result<Vec<i64>, CommandError>)
    requires
        db.wf(),
    ensures
        ({
            let members = db.actions().filter(crate::db::database::in_batch(batch_id@));
            let archived = crate::order::arranged(
                members,
                crate::db::database::created_asc_keys(members),
            ).filter(is_archive());
            match out {
                Ok(ids) => crate::text::trimmed_text(batch_id@).len() > 0 && ids@.len() > 0
                    && ids@ == file_ids_of(archived),
                Err(e) => if crate::text::trimmed_text(batch_id@).len() == 0 {
                    e is Validation && e.detail() == "batch_id cannot be empty"@
                } else {
                    archived.len() == 0 && e is NotFound && e.detail()
                        == "No archived files associated with batch "@ + batch_id@
                },
            }
        }),
{
    match require_text(batch_id, "batch_id cannot be empty") {
        Err(e) => {
            return Err(e);
        },
        Ok(_) => {},
    }
    let actions = db.get_actions_by_batch_id(batch_id);
    let mut mask: Vec<bool> = Vec::new();
    let mut i: usize = 0;
    while i < actions.len()
        invariant
            i <= actions.len(),
            mask@.len() == i,
            forall|j: int| 0 <= j < i ==> mask@[j] == is_archive()(#[trigger] actions@[j]),
        decreases actions.len() - i,
    {
        mask.push(actions[i].action == crate::models::ActionType::Archive);
        i = i + 1;
    }
    let archived = crate::seqs::pick_by_mask(&actions, &mask);
    proof {
        crate::seqs::lemma_masked_is_filter(actions@, mask@, is_archive());
    }
    if archived.len() == 0 {
        return Err(
            CommandError::NotFound(join2("No archived files associated with batch ", batch_id)),
        );
    }
    let mut ids: Vec<i64> = Vec::new();
    let mut k: usize = 0;
    while k < archived.len()
        invariant
            k <= archived.len(),
            ids@.len() == k,
            forall|j: int| 0 <= j < k ==> ids@[j] == archived@[j].file_id,
        decreases archived.len() - k,
    {
        ids.push(archived[k].file_id);
        k = k + 1;
    }
    assert(ids@ =~= file_ids_of(archived@));
    Ok(ids)
}

/// Notes that the staged files `file_ids` left the stage with `status`:
/// their staged records get the status and are then removed, and the file
/// entries are marked as not staged.
pub fn finish_staged(file_ids: &Vec<i64>, status: StagedStatus, db: &mut Database)
    requires
        old(db).wf(),
    ensures
        final(db).wf(),
        final(db).same_log_and_settings(old(db)),
        final(db).files() == crate::db::database::unstaged(old(db).files(), file_ids@),
        final(db).slots() == crate::db::database::unstaged_slots(
            old(db).files(),
            old(db).slots(),
            file_ids@,
        ),
{
    db.update_staged_status(file_ids, status);
    db.mark_files_unstaged(file_ids);
    proof {
        let mid = crate::db::database::with_status(
            old(db).files(),
            old(db).slots(),
            file_ids@,
            status,
        );
        assert(db.slots() =~= crate::db::database::unstaged_slots(
            old(db).files(),
            old(db).slots(),
            file_ids@,
        ));
    }
}

/// The staged records for the archive actions of a batch: each file is
/// staged when its action was made, expires at `expires_at`, and carries
/// the batch of its action and the note.
pub open spec fn staged_entries_for(
    archived: Seq<crate::models::Action>,
    expires_at: Option<i64>,
    note: Option<String>,
) -> Seq<crate::models::NewStagedFile> {
    Seq::new(
        archived.len(),
        |i: int|
            crate::models::NewStagedFile {
                file_id: archived[i].file_id,
                staged_at: archived[i].created_at,
                expires_at,
                batch_id: archived[i].batch_id,
                status: StagedStatus::Staged,
                note,
            },
    )
}

/// Stages the files that an archive run archived, and says what was
/// staged.
///
/// Every archive action of the batch gives a staged record. The files
/// are staged where each record refers to a live file entry and does not
/// expire before it is staged, and enough staged record identifiers are
/// left. Otherwise nothing is staged, and the error is that of the
/// catalog: the first record that cannot be staged decides it.
pub fn stage_commit(
    result: crate::ops::archive::ArchiveResult,
    expires_at: Option<i64>,
    note: Option<String>,
    db: &mut Database,
) -> (out: Result<StageOutcome, CommandError>)
    requires
        old(db).wf(),
    ensures
        final(db).wf(),
        final(db).same_log_and_settings(old(db)),
        ({
            let members = old(db).actions().filter(
                crate::db::database::in_batch(result.batch_id@),
            );
            let archived = crate::order::arranged(
                members,
                crate::db::database::created_asc_keys(members),
            ).filter(is_archive());
            let entries = staged_entries_for(archived, expires_at, note);
            match out {
                Ok(o) => {
                    &&& final(db).staged_state() == crate::db::database::stage_all(
                        old(db).staged_state(),
                        entries,
                    )
                    &&& o.success == (result.errors@.len() == 0)
                    &&& o.staged_files == archived.len()
                    &&& o.batch_id is Some == (archived.len() > 0)
                    &&& o.batch_id matches Some(b) ==> b == result.batch_id
                    &&& o.total_bytes == result.total_bytes
                    &&& o.duration_ms == result.duration_ms
                    &&& o.errors == result.errors
                    &&& o.expires_at == expires_at
                    &&& o.note == note
                },
                Err(e) => e is Database && final(db).same_files(old(db)),
            }
        }),
        ({
            let members = old(db).actions().filter(
                crate::db::database::in_batch(result.batch_id@),
            );
            let archived = crate::order::arranged(
                members,
                crate::db::database::created_asc_keys(members),
            ).filter(is_archive());
            let entries = staged_entries_for(archived, expires_at, note);
            let all_fit = forall|i: int|
                0 <= i < entries.len() ==> crate::db::database::can_stage(
                    old(db).files(),
                    #[trigger] entries[i],
                );
            &&& out is Ok <==> all_fit && old(db).next_staged_id() + entries.len() <= i64::MAX
            &&& forall|i: int|
                0 <= i < entries.len() && !crate::db::database::can_stage(
                    old(db).files(),
                    entries[i],
                ) && (forall|j: int|
                    0 <= j < i ==> crate::db::database::can_stage(
                        old(db).files(),
                        #[trigger] entries[j],
                    )) ==> out is Err && out->Err_0.detail() == store_error_text(
                    if crate::db::database::refers_to_live_file(old(db).files(), entries[i]) {
                        StoreError::CheckViolation
                    } else {
                        StoreError::ForeignKeyViolation
                    },
                )
            &&& all_fit && old(db).next_staged_id() + entries.len() > i64::MAX ==> out is Err
                && out->Err_0.detail() == store_error_text(StoreError::IdsExhausted)
        }),
{
    let actions = db.get_actions_by_batch_id(result.batch_id.as_str());
    let mut mask: Vec<bool> = Vec::new();
    let mut i: usize = 0;
    while i < actions.len()
        invariant
            i <= actions.len(),
            mask@.len() == i,
            forall|j: int| 0 <= j < i ==> mask@[j] == is_archive()(#[trigger] actions@[j]),
        decreases actions.len() - i,
    {
        mask.push(actions[i].action == crate::models::ActionType::Archive);
        i = i + 1;
    }
    let archived = crate::seqs::pick_by_mask(&actions, &mask);
    proof {
        crate::seqs::lemma_masked_is_filter(actions@, mask@, is_archive());
    }
    let mut entries: Vec<crate::models::NewStagedFile> = Vec::new();
    let mut k: usize = 0;
    while k < archived.len()
        invariant
            k <= archived.len(),
            entries@.len() == k,
            forall|j: int|
                0 <= j < k ==> entries@[j] == staged_entries_for(archived@, expires_at, note)[j],
        decreases archived.len() - k,
    {
        let a = &archived[k];
        entries.push(
            crate::models::NewStagedFile {
                file_id: a.file_id,
                staged_at: a.created_at,
                expires_at,
                batch_id: a.batch_id.duplicate(),
                status: StagedStatus::Staged,
                note: note.duplicate(),
            },
        );
        k = k + 1;
    }
    assert(entries@ =~= staged_entries_for(archived@, expires_at, note));
    match db.stage_files(&entries) {
        Ok(_) => {},
        Err(e) => {
            return Err(CommandError::from_store(e));
        },
    }
    let staged = entries.len();
    Ok(
        StageOutcome {
            success: result.errors.len() == 0,
            batch_id: if staged == 0 {
                None
            } else {
                Some(result.batch_id)
            },
            staged_files: staged,
            total_bytes: result.total_bytes,
            duration_ms: result.duration_ms,
            errors: result.errors,
            expires_at,
            note,
        },
    )
}

} // verus!
