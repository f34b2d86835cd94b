//! What a walk of a root takes and what it passes over.

use crate::paths::{extension, file_name, file_name_chars, slice_chars, stem_end};
use crate::text::{chars_of, lowercase_text, same_chars, string_of, to_lowercase};
use vstd::prelude::*;
use vstd::string::StringExecFns;

verus! {

/// What is read of a file when it is found.
#[derive(Debug, Clone)]
pub struct FileMetadata {
    pub path: String,
    pub parent_dir: String,
    pub size_bytes: u64,
    pub created_at: Option<i64>,
    pub modified_at: Option<i64>,
    pub accessed_at: Option<i64>,
    pub mime_type: Option<String>,
}

/// Decides what a walk takes.
#[derive(Debug, Clone)]
pub struct FileWalker {
    /// The names of the directories that are passed over; none twice.
    pub skip_dirs: Vec<String>,
    /// The names of the files that are passed over; none twice.
    pub skip_files: Vec<String>,
}

/// A directory with this name is passed over, with all that is in it.
pub open spec fn skipped_dir_name(name: Seq<char>) -> bool {
    name == ".git"@ || name == "node_modules"@ || name == ".DS_Store"@ || name == "Thumbs.db"@
}

/// A file with this name is passed over.
pub open spec fn skipped_file_name(name: Seq<char>) -> bool {
    name == ".DS_Store"@ || name == "Thumbs.db"@
}

/// The media type for a file extension in lower case, if it is known.
pub open spec fn media_type_of(ext: Seq<char>) -> Option<Seq<char>> {
    if ext == "txt"@ {
        Some("text/plain"@)
    } else if ext == "md"@ {
        Some("text/markdown"@)
    } else if ext == "html"@ {
        Some("text/html"@)
    } else if ext == "css"@ {
        Some("text/css"@)
    } else if ext == "js"@ {
        Some("application/javascript"@)
    } else if ext == "json"@ {
        Some("application/json"@)
    } else if ext == "pdf"@ {
        Some("application/pdf"@)
    } else if ext == "jpg"@ || ext == "jpeg"@ {
        Some("image/jpeg"@)
    } else if ext == "png"@ {
        Some("image/png"@)
    } else if ext == "gif"@ {
        Some("image/gif"@)
    } else if ext == "mp4"@ {
        Some("video/mp4"@)
    } else if ext == "mp3"@ {
        Some("audio/mpeg"@)
    } else if ext == "zip"@ {
        Some("application/zip"@)
    } else if ext == "tar"@ {
        Some("application/x-tar"@)
    } else if ext == "gz"@ {
        Some("application/gzip"@)
    } else {
        None
    }
}

/// The media type of the file at `path`: that of the lower-case form of
/// its extension; none where the file has no extension.
pub open spec fn media_type_at(path: Seq<char>) -> Option<Seq<char>> {
    let ext = extension(file_name(path));
    if ext.len() == 0 {
        None
    } else {
        media_type_of(lowercase_text(ext))
    }
}

fn is_literal(chars: &Vec<char>, literal: &str) -> (r: bool)
    ensures
        r == (chars@ == literal@),
{
    same_chars(chars, &chars_of(literal))
}

/// The media type for a file extension that is given in lower case, if
/// it is known: the fixed table of extensions.
pub fn media_type_for(lower_ext: &str) -> (out: Option<String>)
    ensures
        match out {
            Some(t) => media_type_of(lower_ext@) == Some(t@),
            None => media_type_of(lower_ext@) is None,
        },
{
    let lower = chars_of(lower_ext);
    let kind = if is_literal(&lower, "txt") {
        "text/plain"
    } else if is_literal(&lower, "md") {
        "text/markdown"
    } else if is_literal(&lower, "html") {
        "text/html"
    } else if is_literal(&lower, "css") {
        "text/css"
    } else if is_literal(&lower, "js") {
        "application/javascript"
    } else if is_literal(&lower, "json") {
        "application/json"
    } else if is_literal(&lower, "pdf") {
        "application/pdf"
    } else if is_literal(&lower, "jpg") || is_literal(&lower, "jpeg") {
        "image/jpeg"
    } else if is_literal(&lower, "png") {
        "image/png"
    } else if is_literal(&lower, "gif") {
        "image/gif"
    } else if is_literal(&lower, "mp4") {
        "video/mp4"
    } else if is_literal(&lower, "mp3") {
        "audio/mpeg"
    } else if is_literal(&lower, "zip") {
        "application/zip"
    } else if is_literal(&lower, "tar") {
        "application/x-tar"
    } else if is_literal(&lower, "gz") {
        "application/gzip"
    } else {
        return None;
    };
    Some(String::from_str(kind))
}

impl FileWalker {
    /// The names passed over are those of the two lists.
    pub open spec fn wf(&self) -> bool {
        &&& forall|name: Seq<char>|
            skipped_dir_name(name) <==> exists|i: int|
                0 <= i < self.skip_dirs@.len() && (#[trigger] self.skip_dirs@[i])@ == name
        &&& forall|name: Seq<char>|
            skipped_file_name(name) <==> exists|i: int|
                0 <= i < self.skip_files@.len() && (#[trigger] self.skip_files@[i])@ == name
    }

    /// A walker that passes over the directories `.git`, `node_modules`,
    /// `.DS_Store` and `Thumbs.db` and the files `.DS_Store` and
    /// `Thumbs.db`.
    pub fn new() -> (out: FileWalker)
        ensures
            out.wf(),
            out.skip_dirs@.len() == 4,
            out.skip_files@.len() == 2,
    {
        let mut skip_dirs: Vec<String> = Vec::new();
        skip_dirs.push(String::from_str(".git"));
        skip_dirs.push(String::from_str("node_modules"));
        skip_dirs.push(String::from_str(".DS_Store"));
        skip_dirs.push(String::from_str("Thumbs.db"));
        let mut skip_files: Vec<String> = Vec::new();
        skip_files.push(String::from_str(".DS_Store"));
        skip_files.push(String::from_str("Thumbs.db"));
        let out = FileWalker { skip_dirs, skip_files };
        proof {
            assert forall|name: Seq<char>| skipped_dir_name(name) <==> exists|i: int|
                0 <= i < out.skip_dirs@.len() && (#[trigger] out.skip_dirs@[i])@ == name by {
                if skipped_dir_name(name) {
                    let i: int = if name == ".git"@ {
                        0
                    } else if name == "node_modules"@ {
                        1
                    } else if name == ".DS_Store"@ {
                        2
                    } else {
                        3
                    };
                    assert(out.skip_dirs@[i]@ == name);
                }
            }
            assert forall|name: Seq<char>| skipped_file_name(name) <==> exists|i: int|
                0 <= i < out.skip_files@.len() && (#[trigger] out.skip_files@[i])@ == name by {
                if skipped_file_name(name) {
                    let i: int = if name == ".DS_Store"@ {
                        0
                    } else {
                        1
                    };
                    assert(out.skip_files@[i]@ == name);
                }
            }
        }
        out
    }

    fn listed(names: &Vec<String>, name: &Vec<char>) -> (r: bool)
        ensures
            r == exists|i: int| 0 <= i < names@.len() && (#[trigger] names@[i])@ == name@,
    {
        let text = string_of(name);
        let mut i: usize = 0;
        while i < names.len()
            invariant
                i <= names.len(),
                text@ == name@,
                forall|j: int| 0 <= j < i ==> (#[trigger] names@[j])@ != name@,
            decreases names.len() - i,
        {
            if names[i] == text {
                return true;
            }
            i = i + 1;
        }
        false
    }

    /// Whether the directory at `path` is passed over: by its name.
    pub fn should_skip_dir(&self, path: &str) -> (r: bool)
        requires
            self.wf(),
        ensures
            r == skipped_dir_name(file_name(path@)),
    {
        let name = file_name_chars(&chars_of(path));
        Self::listed(&self.skip_dirs, &name)
    }

    /// Whether the file at `path` is passed over: by its name.
    pub fn should_skip_file(&self, path: &str) -> (r: bool)
        requires
            self.wf(),
        ensures
            r == skipped_file_name(file_name(path@)),
    {
        let name = file_name_chars(&chars_of(path));
        Self::listed(&self.skip_files, &name)
    }

    /// The media type of the file at `file_path`, by its extension.
    pub fn detect_mime_type(&self, file_path: &str) -> (out: Option<String>)
        ensures
            match out {
                Some(t) => media_type_at(file_path@) == Some(t@),
                None => media_type_at(file_path@) is None,
            },
    {
        let name = file_name_chars(&chars_of(file_path));
        let cut = stem_end(&name);
        if cut >= name.len() {
            return None;
        }
        proof {
            crate::paths::lemma_stem_len_bounds(name@);
        }
        let ext = slice_chars(&name, cut + 1, name.len());
        assert(ext@ == extension(name@));
        if ext.len() == 0 {
            return None;
        }
        let lower = to_lowercase(string_of(&ext).as_str());
        media_type_for(lower.as_str())
    }

    /// What is recorded of a file that was found, given what was read of
    /// it: its parent directory and media type follow from its path.
    pub fn extract_metadata(
        &self,
        file_path: &str,
        size_bytes: u64,
        created_at: Option<i64>,
        modified_at: Option<i64>,
        accessed_at: Option<i64>,
    ) -> (out: FileMetadata)
        ensures
            out.path@ == file_path@,
            out.parent_dir@ == (if file_name(file_path@).len() == 0 {
                "/"@
            } else {
                crate::paths::parent_dir(file_path@)
            }),
            out.size_bytes == size_bytes,
            out.created_at == created_at,
            out.modified_at == modified_at,
            out.accessed_at == accessed_at,
            match out.mime_type {
                Some(t) => media_type_at(file_path@) == Some(t@),
                None => media_type_at(file_path@) is None,
            },
    {
        let name = file_name_chars(&chars_of(file_path));
        let parent_dir = if name.len() == 0 {
            String::from_str("/")
        } else {
            crate::paths::parent_dir_of(file_path)
        };
        FileMetadata {
            path: String::from_str(file_path),
            parent_dir,
            size_bytes,
            created_at,
            modified_at,
            accessed_at,
            mime_type: self.detect_mime_type(file_path),
        }
    }
}

} // verus!
