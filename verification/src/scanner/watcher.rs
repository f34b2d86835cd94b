//! From changes under the watched roots to scan requests.
//!
//! A change under a root asks for a scan of that root, but not more often
//! than once in five seconds for one root.

use crate::models::Duplicate;
use crate::paths::within_root;
use crate::seqs::{masked, pick_by_mask};
use vstd::prelude::*;
use vstd::string::StringExecFns;

verus! {

/// The time for which a root that asked for a scan stays quiet, in
/// milliseconds.
pub const DEBOUNCE_MS: u64 = 5000;

/// The kinds of change that a watch reports.
#[derive(Debug, Clone, Copy, PartialEq, Eq, Structural)]
pub enum WatchEventKind {
    Create,
    Modify,
    Remove,
    Any,
    Access,
    Other,
}

/// The roots that are watched and, for each, when it last asked for a
/// scan, on a clock of milliseconds that never goes back.
#[derive(Debug, Clone)]
pub struct WatcherRuntime {
    pub roots: Vec<String>,
    pub last_trigger: Vec<Option<u64>>,
}

/// A change of this kind counts: something was made, changed or removed,
/// or the kind is not known more closely.
pub open spec fn is_observed(kind: WatchEventKind) -> bool {
    kind == WatchEventKind::Create || kind == WatchEventKind::Modify || kind
        == WatchEventKind::Remove || kind == WatchEventKind::Any
}

/// One of the paths is the root or lies inside it.
pub open spec fn touches(paths: Seq<String>, root: Seq<char>) -> bool {
    exists|i: int| 0 <= i < paths.len() && within_root((#[trigger] paths[i])@, root)
}

/// A root that last asked for a scan at `last` asks again at `now`: it is
/// its first time, or five seconds have passed.
pub open spec fn fires(last: Option<u64>, now: u64) -> bool {
    match last {
        None => true,
        Some(t) => now >= t && now - t >= DEBOUNCE_MS,
    }
}

/// How many scans a root asks for when changes under it are seen at
/// `times`, given when it last asked for one.
pub open spec fn fire_count(last: Option<u64>, times: Seq<u64>) -> nat
    decreases times.len(),
{
    if times.len() == 0 {
        0
    } else if fires(last, times[0]) {
        1 + fire_count(Some(times[0]), times.drop_first())
    } else {
        fire_count(last, times.drop_first())
    }
}

/// However many changes are seen under one root within five seconds, the
/// root asks for at most one scan.
pub proof fn law_debounce(last: Option<u64>, times: Seq<u64>)
    requires
        forall|i: int, j: int| 0 <= i <= j < times.len() ==> times[i] <= times[j],
        times.len() > 0 ==> times.last() - times[0] < DEBOUNCE_MS,
    ensures
        fire_count(last, times) <= 1,
    decreases times.len(),
{
    if times.len() > 0 {
        let rest = times.drop_first();
        assert forall|i: int, j: int| 0 <= i <= j < rest.len() implies rest[i] <= rest[j] by {
            assert(rest[i] == times[i + 1] && rest[j] == times[j + 1]);
        }
        if rest.len() > 0 {
            assert(rest.last() == times.last());
            assert(rest[0] == times[1]);
            assert(times[0] <= times[1]);
        }
        if fires(last, times[0]) {
            lemma_quiet(times[0], rest);
        } else {
            law_debounce(last, rest);
        }
    }
}

/// A root that asked for a scan at `t` asks for none at times from `t`
/// to less than five seconds later.
proof fn lemma_quiet(t: u64, times: Seq<u64>)
    requires
        forall|i: int| 0 <= i < times.len() ==> t <= times[i] && times[i] - t < DEBOUNCE_MS,
    ensures
        fire_count(Some(t), times) == 0,
    decreases times.len(),
{
    if times.len() > 0 {
        let rest = times.drop_first();
        assert forall|i: int| 0 <= i < rest.len() implies t <= rest[i] && rest[i] - t
            < DEBOUNCE_MS by {
            assert(rest[i] == times[i + 1]);
        }
        lemma_quiet(t, rest);
    }
}

impl WatcherRuntime {
    /// Each root has its own time, and no root is there twice.
    pub open spec fn wf(&self) -> bool {
        &&& self.roots@.len() == self.last_trigger@.len()
        &&& forall|i: int, j: int|
            0 <= i < j < self.roots@.len() ==> (#[trigger] self.roots@[i])@ != (
            #[trigger] self.roots@[j])@
    }

    /// The root `path` is watched.
    pub open spec fn watches(&self, path: Seq<char>) -> bool {
        exists|i: int| 0 <= i < self.roots@.len() && (#[trigger] self.roots@[i])@ == path
    }

    /// A runtime that watches nothing.
    pub fn new() -> (out: WatcherRuntime)
        ensures
            out.wf(),
            out.roots@.len() == 0,
    {
        WatcherRuntime { roots: Vec::new(), last_trigger: Vec::new() }
    }

    fn find(&self, path: &String) -> (out: Option<usize>)
        ensures
            match out {
                Some(i) => i < self.roots@.len() && self.roots@[i as int]@ == path@,
                None => !self.watches(path@),
            },
    {
        let mut i: usize = 0;
        while i < self.roots.len()
            invariant
                i <= self.roots.len(),
                forall|j: int| 0 <= j < i ==> (#[trigger] self.roots@[j])@ != path@,
            decreases self.roots.len() - i,
        {
            if self.roots[i] == *path {
                return Some(i);
            }
            i = i + 1;
        }
        None
    }

    /// Whether the root `path` is watched.
    pub fn is_watching(&self, path: &str) -> (r: bool)
        ensures
            r == self.watches(path@),
    {
        let wanted = String::from_str(path);
        self.find(&wanted).is_some()
    }

    /// Starts to watch the root `path`, which is there or not as `exists`
    /// says. A root that is not there, or is watched already, changes
    /// nothing. Returns whether the root is newly watched.
    pub fn register_root(&mut self, path: &str, exists: bool) -> (added: bool)
        requires
            old(self).wf(),
        ensures
            final(self).wf(),
            added == (exists && !old(self).watches(path@)),
            !added ==> *final(self) == *old(self),
            added ==> {
                &&& final(self).roots@.drop_last() == old(self).roots@
                &&& final(self).roots@.last()@ == path@
                &&& final(self).last_trigger@ == old(self).last_trigger@.push(None)
            },
    {
        if !exists {
            return false;
        }
        let wanted = String::from_str(path);
        match self.find(&wanted) {
            Some(_) => false,
            None => {
                self.roots.push(wanted);
                self.last_trigger.push(None);
                assert(self.roots@.drop_last() =~= old(self).roots@);
                true
            },
        }
    }

    /// The position of the root `path` among the watched roots.
    pub open spec fn position_of(&self, path: Seq<char>) -> int {
        choose|i: int| 0 <= i < self.roots@.len() && (#[trigger] self.roots@[i])@ == path
    }

    /// Stops watching the root `path`: the root leaves the list together
    /// with the time at which it last asked for a scan; the other roots
    /// keep their order and their times. Returns whether the root was
    /// watched.
    pub fn unregister_root(&mut self, path: &str) -> (removed: bool)
        requires
            old(self).wf(),
        ensures
            final(self).wf(),
            removed == old(self).watches(path@),
            !final(self).watches(path@),
            !removed ==> *final(self) == *old(self),
            removed ==> {
                let i = old(self).position_of(path@);
                &&& 0 <= i < old(self).roots@.len()
                &&& old(self).roots@[i]@ == path@
                &&& final(self).roots@ == old(self).roots@.remove(i)
                &&& final(self).last_trigger@ == old(self).last_trigger@.remove(i)
            },
            forall|p: Seq<char>| p != path@ ==> final(self).watches(p) == old(self).watches(p),
    {
        let wanted = String::from_str(path);
        match self.find(&wanted) {
            Some(i) => {
                self.roots.remove(i);
                self.last_trigger.remove(i);
                proof {
                    let b = old(self).roots@;
                    let a = self.roots@;
                    assert(b[i as int]@ == path@);
                    let at = old(self).position_of(path@);
                    assert(0 <= at < b.len() && b[at]@ == path@);
                    if at < i {
                        assert(b[at]@ != b[i as int]@);
                    } else if i < at {
                        assert(b[i as int]@ != b[at]@);
                    }
                    assert(at == i);
                    assert forall|x: int, y: int| 0 <= x < y < a.len() implies (#[trigger] a[x])@
                        != (#[trigger] a[y])@ by {
                        let bx = if x < i {
                            x
                        } else {
                            x + 1
                        };
                        let by = if y < i {
                            y
                        } else {
                            y + 1
                        };
                        assert(a[x] == b[bx] && a[y] == b[by]);
                    }
                    assert forall|p: Seq<char>| p != path@ implies self.watches(p) == old(
                        self,
                    ).watches(p) by {
                        if old(self).watches(p) {
                            let k = choose|k: int| 0 <= k < b.len() && (#[trigger] b[k])@ == p;
                            let ak = if k < i {
                                k
                            } else {
                                k - 1
                            };
                            assert(a[ak] == b[k]);
                        }
                        if self.watches(p) {
                            let k = choose|k: int| 0 <= k < a.len() && (#[trigger] a[k])@ == p;
                            let bk = if k < i {
                                k
                            } else {
                                k + 1
                            };
                            assert(a[k] == b[bk]);
                        }
                    }
                    if self.watches(path@) {
                        let k = choose|k: int| 0 <= k < a.len() && (#[trigger] a[k])@ == path@;
                        let bk = if k < i {
                            k
                        } else {
                            k + 1
                        };
                        assert(a[k] == b[bk]);
                        if bk < i {
                            assert(b[bk]@ != b[i as int]@);
                        } else {
                            assert(b[i as int]@ != b[bk]@);
                        }
                    }
                }
                true
            },
            None => false,
        }
    }

    /// For each root, whether a change of `kind` at `paths` seen at `now`
    /// makes it ask for a scan.
    pub open spec fn marks(&self, kind: WatchEventKind, paths: Seq<String>, now: u64) -> Seq<bool> {
        Seq::new(
            self.roots@.len(),
            |i: int|
                is_observed(kind) && touches(paths, self.roots@[i]@) && fires(
                    self.last_trigger@[i],
                    now,
                ),
        )
    }

    /// The roots that ask for a scan after a change of `kind` at `paths`,
    /// seen at `now`.
    ///
    /// A root asks where the change counts, one of the paths is the root
    /// or lies inside it, and the root did not ask in the five seconds
    /// before. Each root that asks is noted as having asked at `now`.
    pub fn handle_event(&mut self, kind: WatchEventKind, paths: &Vec<String>, now: u64) -> (out:
        Vec<String>)
        requires
            old(self).wf(),
        ensures
            final(self).wf(),
            final(self).roots == old(self).roots,
            out@ == masked(old(self).roots@, old(self).marks(kind, paths@, now)),
            final(self).last_trigger@.len() == old(self).last_trigger@.len(),
            forall|i: int|
                0 <= i < old(self).roots@.len() ==> (#[trigger] final(self).last_trigger@[i]) == (
                if old(self).marks(kind, paths@, now)[i] {
                    Some(now)
                } else {
                    old(self).last_trigger@[i]
                }),
    {
        let observed = match kind {
            WatchEventKind::Create => true,
            WatchEventKind::Modify => true,
            WatchEventKind::Remove => true,
            WatchEventKind::Any => true,
            _ => false,
        };
        let ghost marks = self.marks(kind, paths@, now);
        let mut mask: Vec<bool> = Vec::new();
        let mut i: usize = 0;
        while i < self.roots.len()
            invariant
                i <= self.roots.len(),
                old(self).wf(),
                self.roots == old(self).roots,
                self.last_trigger@.len() == old(self).last_trigger@.len(),
                observed == is_observed(kind),
                marks == old(self).marks(kind, paths@, now),
                mask@.len() == i,
                forall|j: int| 0 <= j < i ==> mask@[j] == marks[j],
                forall|j: int|
                    0 <= j < i ==> (#[trigger] self.last_trigger@[j]) == (if marks[j] {
                        Some(now)
                    } else {
                        old(self).last_trigger@[j]
                    }),
                forall|j: int|
                    i <= j < self.roots@.len() ==> (#[trigger] self.last_trigger@[j]) == old(
                        self,
                    ).last_trigger@[j],
            decreases self.roots.len() - i,
        {
            let mut fire = false;
            if observed && touched(paths, self.roots[i].as_str()) {
                fire = match self.last_trigger[i] {
                    None => true,
                    Some(t) => now >= t && now - t >= DEBOUNCE_MS,
                };
            }
            if fire {
                self.last_trigger.set(i, Some(now));
            }
            mask.push(fire);
            i = i + 1;
        }
        assert(mask@ =~= marks);
        pick_by_mask(&self.roots, &mask)
    }
}

/// Whether one of the paths is the root or lies inside it.
pub fn touched(paths: &Vec<String>, root: &str) -> (r: bool)
    ensures
        r == touches(paths@, root@),
{
    let mut i: usize = 0;
    while i < paths.len()
        invariant
            i <= paths.len(),
            forall|j: int| 0 <= j < i ==> !within_root((#[trigger] paths@[j])@, root@),
        decreases paths.len() - i,
    {
        if crate::paths::path_within_root(paths[i].as_str(), root) {
            return true;
        }
        i = i + 1;
    }
    false
}

} // verus!
