//! Signs that a directory belongs to work in progress.

use crate::paths::{file_name, file_name_chars};
use crate::text::{chars_of, contains, has_infix, lowercase_text, string_of, to_lowercase};
use vstd::prelude::*;
use vstd::string::StringExecFns;

verus! {

/// The number of milliseconds in seven days.
pub const ACTIVE_WINDOW_MS: i64 = 604800000;

/// A repository that was found under a root.
#[derive(Debug, Clone)]
pub struct DevRepo {
    pub path: String,
    pub git_root: String,
    pub keyword_flags: Vec<String>,
    pub last_activity: i64,
    pub is_active: bool,
}

/// How much was modified in a directory of late.
#[derive(Debug, Clone)]
pub struct RecentBurst {
    pub directory: String,
    pub modified_count: u32,
    pub time_window_hours: u32,
    pub is_burst: bool,
}

/// Finds signs of work in progress.
#[derive(Debug, Clone)]
pub struct ActiveProjectDetector {
    pub keyword_patterns: Vec<String>,
    pub burst_threshold: u32,
    pub burst_window_hours: u32,
}

/// The number of milliseconds in an hour.
pub const HOUR_MS: i64 = 3600000;

/// A name that starts with a dot.
pub open spec fn is_hidden(name: Seq<char>) -> bool {
    name.len() > 0 && name[0] == '.'
}

/// The name of a directory that is never searched.
pub open spec fn never_searched(name: Seq<char>) -> bool {
    name == ".git"@ || name == "node_modules"@ || name == ".DS_Store"@ || name == "Thumbs.db"@
}

/// The test for a pattern that the lower-case form of `name` holds.
pub open spec fn held_by(name: Seq<char>) -> spec_fn(String) -> bool {
    |pattern: String| has_infix(lowercase_text(name), pattern@)
}

impl ActiveProjectDetector {
    /// A detector for the keywords `current`, `project`, `active`, `wip`
    /// and `final`, and for bursts of three files in 72 hours.
    pub fn new() -> (out: ActiveProjectDetector)
        ensures
            out.keyword_patterns@.len() == 5,
            out.keyword_patterns@[0]@ == "current"@,
            out.keyword_patterns@[1]@ == "project"@,
            out.keyword_patterns@[2]@ == "active"@,
            out.keyword_patterns@[3]@ == "wip"@,
            out.keyword_patterns@[4]@ == "final"@,
            out.burst_threshold == 3,
            out.burst_window_hours == 72,
    {
        let mut keyword_patterns: Vec<String> = Vec::new();
        keyword_patterns.push(String::from_str("current"));
        keyword_patterns.push(String::from_str("project"));
        keyword_patterns.push(String::from_str("active"));
        keyword_patterns.push(String::from_str("wip"));
        keyword_patterns.push(String::from_str("final"));
        ActiveProjectDetector { keyword_patterns, burst_threshold: 3, burst_window_hours: 72 }
    }

    /// Whether the directory at `path` is never searched: by its name.
    pub fn should_skip_directory(&self, path: &str) -> (r: bool)
        ensures
            r == never_searched(file_name(path@)),
    {
        let name = file_name_chars(&chars_of(path));
        crate::text::same_chars(&name, &chars_of(".git")) || crate::text::same_chars(
            &name,
            &chars_of("node_modules"),
        ) || crate::text::same_chars(&name, &chars_of(".DS_Store")) || crate::text::same_chars(
            &name,
            &chars_of("Thumbs.db"),
        )
    }

    /// The keywords that the name of the repository at `repo_path` holds,
    /// whatever the case, in the order of the patterns.
    pub fn detect_keyword_flags(&self, repo_path: &str) -> (out: Vec<String>)
        ensures
            out@ == self.keyword_patterns@.filter(held_by(file_name(repo_path@))),
    {
        let name = string_of(&file_name_chars(&chars_of(repo_path)));
        let lower = chars_of(to_lowercase(name.as_str()).as_str());
        let mut mask: Vec<bool> = Vec::new();
        let mut i: usize = 0;
        while i < self.keyword_patterns.len()
            invariant
                i <= self.keyword_patterns.len(),
                lower@ == lowercase_text(file_name(repo_path@)),
                mask@.len() == i,
                forall|j: int|
                    0 <= j < i ==> mask@[j] == held_by(file_name(repo_path@))(
                        #[trigger] self.keyword_patterns@[j],
                    ),
            decreases self.keyword_patterns.len() - i,
        {
            mask.push(contains(&lower, &chars_of(self.keyword_patterns[i].as_str())));
            i = i + 1;
        }
        let out = crate::seqs::pick_by_mask(&self.keyword_patterns, &mask);
        proof {
            crate::seqs::lemma_masked_is_filter(
                self.keyword_patterns@,
                mask@,
                held_by(file_name(repo_path@)),
            );
        }
        out
    }

    /// Whether a repository that was last touched at `last_activity` is
    /// active at `now`: it was touched in the seven days before.
    pub fn is_repo_active(&self, last_activity: i64, now: i64) -> (r: bool)
        ensures
            r == (last_activity > now - ACTIVE_WINDOW_MS),
    {
        (last_activity as i128) > (now as i128) - (ACTIVE_WINDOW_MS as i128)
    }

    /// What is known of the repository at `repo_path`, last touched at
    /// `last_activity`.
    pub fn analyze_git_repo(&self, repo_path: &str, last_activity: i64, now: i64) -> (out: DevRepo)
        ensures
            out.path@ == repo_path@,
            out.git_root@ == repo_path@,
            out.keyword_flags@ == self.keyword_patterns@.filter(held_by(file_name(repo_path@))),
            out.last_activity == last_activity,
            out.is_active == (last_activity > now - ACTIVE_WINDOW_MS),
    {
        DevRepo {
            path: String::from_str(repo_path),
            git_root: String::from_str(repo_path),
            keyword_flags: self.detect_keyword_flags(repo_path),
            last_activity,
            is_active: self.is_repo_active(last_activity, now),
        }
    }

    /// Whether the search for files modified of late looks at the entry at
    /// `path`: not where its name starts with a dot, and not where it is
    /// the name of a directory that is never searched.
    pub fn looks_at(&self, path: &str) -> (r: bool)
        ensures
            r == !(is_hidden(file_name(path@)) || never_searched(file_name(path@))),
    {
        let name = file_name_chars(&chars_of(path));
        if name.len() > 0 && name[0] == '.' {
            return false;
        }
        !self.should_skip_directory(path)
    }

    /// Whether a file at `path`, last modified at `modified_at`, counts as
    /// modified of late at `now`: the search looks at it, and it was
    /// modified inside the window before `now`.
    pub fn counts_as_recent(&self, path: &str, modified_at: Option<i64>, now: i64) -> (r: bool)
        ensures
            r == (!(is_hidden(file_name(path@)) || never_searched(file_name(path@)))
                && modified_at is Some && modified_at->0 > now - self.burst_window_hours
                * HOUR_MS),
    {
        if !self.looks_at(path) {
            return false;
        }
        match modified_at {
            Some(at) => (at as i128) > (now as i128) - (self.burst_window_hours as i128) * (
            HOUR_MS as i128),
            None => false,
        }
    }

    /// Whether `modified_count` files modified of late in `directory` are
    /// a burst: as many as the threshold, or more.
    pub fn detect_recent_burst(&self, directory: &str, modified_count: u32) -> (out: RecentBurst)
        ensures
            out.directory@ == directory@,
            out.modified_count == modified_count,
            out.time_window_hours == self.burst_window_hours,
            out.is_burst == (modified_count >= self.burst_threshold),
    {
        RecentBurst {
            directory: String::from_str(directory),
            modified_count,
            time_window_hours: self.burst_window_hours,
            is_burst: modified_count >= self.burst_threshold,
        }
    }

    /// How many of the repositories are active and how many are not, in
    /// that order.
    pub fn analyze_project_activity(&self, repos: &Vec<DevRepo>) -> (out: (u32, u32))
        ensures
            out.0 == capped(repos@.filter(active_repo()).len()),
            out.1 == capped(repos@.filter(inactive_repo()).len()),
    {
        let mut active: u32 = 0;
        let mut inactive: u32 = 0;
        let mut i: usize = 0;
        let ghost is_active = active_repo();
        let ghost is_inactive = inactive_repo();
        proof {
            reveal(Seq::filter);
            assert(repos@.take(0).filter(is_active) =~= Seq::<DevRepo>::empty());
            assert(repos@.take(0).filter(is_inactive) =~= Seq::<DevRepo>::empty());
        }
        while i < repos.len()
            invariant
                i <= repos.len(),
                is_active == active_repo(),
                is_inactive == inactive_repo(),
                active == capped(repos@.take(i as int).filter(is_active).len()),
                inactive == capped(repos@.take(i as int).filter(is_inactive).len()),
            decreases repos.len() - i,
        {
            proof {
                assert(repos@.take(i + 1) == repos@.take(i as int).push(repos@[i as int]));
                repos@.take(i as int).lemma_filter_push(repos@[i as int], is_active);
                repos@.take(i as int).lemma_filter_push(repos@[i as int], is_inactive);
            }
            if repos[i].is_active {
                active = active.saturating_add(1);
            } else {
                inactive = inactive.saturating_add(1);
            }
            i = i + 1;
        }
        proof {
            assert(repos@.take(repos@.len() as int) == repos@);
        }
        (active, inactive)
    }

    /// How many of the repositories carry the keyword `flag`.
    pub fn count_flagged(&self, repos: &Vec<DevRepo>, flag: &str) -> (out: u32)
        ensures
            out == capped(repos@.filter(flagged_with(flag@)).len()),
    {
        let mut count: u32 = 0;
        let mut i: usize = 0;
        let wanted = String::from_str(flag);
        proof {
            reveal(Seq::filter);
            assert(repos@.take(0).filter(flagged_with(flag@)) =~= Seq::<DevRepo>::empty());
        }
        while i < repos.len()
            invariant
                i <= repos.len(),
                wanted@ == flag@,
                count == capped(repos@.take(i as int).filter(flagged_with(flag@)).len()),
            decreases repos.len() - i,
        {
            proof {
                assert(repos@.take(i + 1) == repos@.take(i as int).push(repos@[i as int]));
                repos@.take(i as int).lemma_filter_push(repos@[i as int], flagged_with(flag@));
            }
            if crate::db::database::contains_text(&repos[i].keyword_flags, &wanted) {
                count = count.saturating_add(1);
            }
            i = i + 1;
        }
        proof {
            assert(repos@.take(repos@.len() as int) == repos@);
        }
        count
    }

    /// The roots that are scanned where the user chose none: the usual
    /// directories under the home directory, as far as they are there.
    /// Each candidate comes with whether it is there.
    pub fn get_default_scan_roots(candidates: &Vec<(String, bool)>) -> (out: Vec<String>)
        ensures
            out@ == crate::seqs::masked(
                Seq::new(candidates@.len(), |i: int| candidates@[i].0),
                Seq::new(candidates@.len(), |i: int| candidates@[i].1),
            ),
    {
        let mut names: Vec<String> = Vec::new();
        let mut mask: Vec<bool> = Vec::new();
        let mut i: usize = 0;
        while i < candidates.len()
            invariant
                i <= candidates.len(),
                names@.len() == i,
                mask@.len() == i,
                forall|j: int| 0 <= j < i ==> names@[j] == candidates@[j].0,
                forall|j: int| 0 <= j < i ==> mask@[j] == candidates@[j].1,
            decreases candidates.len() - i,
        {
            names.push(candidates[i].0.clone());
            mask.push(candidates[i].1);
            i = i + 1;
        }
        assert(names@ =~= Seq::new(candidates@.len(), |i: int| candidates@[i].0));
        assert(mask@ =~= Seq::new(candidates@.len(), |i: int| candidates@[i].1));
        crate::seqs::pick_by_mask(&names, &mask)
    }

    /// The names of the usual directories under a home directory.
    pub fn default_root_names() -> (out: Vec<String>)
        ensures
            out@.len() == 7,
            out@[0]@ == "Desktop"@,
            out@[1]@ == "Downloads"@,
            out@[2]@ == "Pictures"@,
            out@[3]@ == "Documents"@,
            out@[4]@ == "Projects"@,
            out@[5]@ == "Code"@,
            out@[6]@ == "dev"@,
    {
        let mut out: Vec<String> = Vec::new();
        out.push(String::from_str("Desktop"));
        out.push(String::from_str("Downloads"));
        out.push(String::from_str("Pictures"));
        out.push(String::from_str("Documents"));
        out.push(String::from_str("Projects"));
        out.push(String::from_str("Code"));
        out.push(String::from_str("dev"));
        out
    }
}

/// The test for a repository that is active.
pub open spec fn active_repo() -> spec_fn(DevRepo) -> bool {
    |r: DevRepo| r.is_active
}

/// The test for a repository that is not active.
pub open spec fn inactive_repo() -> spec_fn(DevRepo) -> bool {
    |r: DevRepo| !r.is_active
}

/// The test for a repository that carries the keyword `flag`.
pub open spec fn flagged_with(flag: Seq<char>) -> spec_fn(DevRepo) -> bool {
    |r: DevRepo| crate::db::database::string_views(r.keyword_flags@).contains(flag)
}

/// A count, capped at the largest `u32`.
pub open spec fn capped(n: nat) -> u32 {
    if n > u32::MAX {
        u32::MAX
    } else {
        n as u32
    }
}

} // verus!
