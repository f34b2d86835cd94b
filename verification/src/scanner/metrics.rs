//! What a scan notes in the series of metrics once it is done.

use crate::db::metrics::{room_for, MetricLog};
use crate::models::{Metric, NewMetric};
use crate::scanner::active_project::{active_repo, capped, inactive_repo, DevRepo};
use crate::scanner::{ScanResult, Scanner};
use crate::text::join2;
use vstd::prelude::*;
use vstd::string::StringExecFns;

verus! {

/// What a point says: its name, its value in thousandths, and where the
/// value comes from.
pub struct Fact {
    pub name: Seq<char>,
    pub value_milli: i64,
    pub context: Seq<char>,
}

/// A count in thousandths, capped at the largest value.
pub open spec fn milli(n: nat) -> i64 {
    if n * 1000 > i64::MAX {
        i64::MAX
    } else {
        (n * 1000) as i64
    }
}

/// Files for each second in thousandths, rounded down and capped; zero
/// where no time has passed.
pub open spec fn rate_milli(counted: u64, duration_ms: u64) -> i64 {
    if duration_ms == 0 {
        0
    } else if counted * 1000000 / (duration_ms as int) > i64::MAX {
        i64::MAX
    } else {
        (counted * 1000000 / (duration_ms as int)) as i64
    }
}

/// The point says what the fact says.
pub open spec fn says(m: NewMetric, fact: Fact) -> bool {
    &&& m.metric@ == fact.name
    &&& m.value_milli == fact.value_milli
    &&& m.context is Some
    &&& m.context->0@ == fact.context
}

/// The recorded point says what the fact says.
pub open spec fn holds(m: Metric, fact: Fact) -> bool {
    &&& m.metric@ == fact.name
    &&& m.value_milli == fact.value_milli
    &&& m.context is Some
    &&& m.context->0@ == fact.context
}

/// The log `post` is the log `pre` with the facts recorded at `now` in
/// their order, as far as identifiers were left.
pub open spec fn noted(pre: &MetricLog, post: &MetricLog, facts: Seq<Fact>, now: i64) -> bool {
    let room = room_for(pre.next_id(), facts.len());
    &&& post.points().len() == pre.points().len() + room
    &&& post.points().take(pre.points().len() as int) == pre.points()
    &&& post.next_id() == pre.next_id() + room
    &&& forall|k: int|
        0 <= k < room ==> {
            let m = #[trigger] post.points()[pre.points().len() + k];
            &&& m.id == Some((pre.next_id() + k) as i64)
            &&& m.created_at == now
            &&& holds(m, facts[k])
        }
}

/// What a scan that counted and skipped so many files in `duration_ms`
/// notes of its speed, given the target for the duration.
pub open spec fn performance_facts(result: ScanResult, duration_ms: u64, target_ms: u64) -> Seq<
    Fact,
> {
    seq![
        Fact {
            name: "scan_duration_ms"@,
            value_milli: milli(duration_ms as nat),
            context: "performance"@,
        },
        Fact { name: "files_counted"@, value_milli: milli(result.counted as nat), context: "scan"@ },
        Fact { name: "files_skipped"@, value_milli: milli(result.skipped as nat), context: "scan"@ },
        Fact {
            name: "files_per_second"@,
            value_milli: rate_milli(result.counted, duration_ms),
            context: "performance"@,
        },
        Fact {
            name: "performance_target_met"@,
            value_milli: if duration_ms <= target_ms {
                1000
            } else {
                0
            },
            context: "performance"@,
        },
    ]
}

/// What a scan notes of the repositories that it found: how many are
/// active and how many are not, each capped at the largest `u32`, and how
/// many there are.
pub open spec fn project_facts(repos: Seq<DevRepo>) -> Seq<Fact> {
    seq![
        Fact {
            name: "project_active"@,
            value_milli: milli(capped(repos.filter(active_repo()).len()) as nat),
            context: "scan"@,
        },
        Fact {
            name: "project_inactive"@,
            value_milli: milli(capped(repos.filter(inactive_repo()).len()) as nat),
            context: "scan"@,
        },
        Fact { name: "total_dev_repos"@, value_milli: milli(repos.len()), context: "scan"@ },
    ]
}

/// A count in thousandths, capped at the largest value.
pub fn count_milli(n: u64) -> (out: i64)
    ensures
        out == milli(n as nat),
{
    if n > 9223372036854775 {
        i64::MAX
    } else {
        (n * 1000) as i64
    }
}

fn point(name: &str, value_milli: i64, context: &str) -> (out: NewMetric)
    ensures
        says(out, Fact { name: name@, value_milli, context: context@ }),
{
    NewMetric {
        metric: String::from_str(name),
        value_milli,
        context: Some(String::from_str(context)),
    }
}

fn note(log: &mut MetricLog, points: &Vec<NewMetric>, facts: Ghost<Seq<Fact>>, now: i64)
    requires
        old(log).wf(),
        points@.len() == facts@.len(),
        forall|k: int| 0 <= k < points@.len() ==> says(#[trigger] points@[k], facts@[k]),
    ensures
        final(log).wf(),
        noted(old(log), final(log), facts@, now),
{
    log.insert_all(points, now);
}

impl Scanner {
    /// Notes how fast a scan was: its duration, the files that it counted
    /// and skipped, the files for each second, and whether it met the
    /// target for the duration.
    pub fn record_performance_metrics(
        &self,
        result: &ScanResult,
        duration_ms: u64,
        log: &mut MetricLog,
        now: i64,
    )
        requires
            old(log).wf(),
        ensures
            final(log).wf(),
            noted(
                old(log),
                final(log),
                performance_facts(*result, duration_ms, self.performance_target_ms),
                now,
            ),
    {
        let rate: i64 = if duration_ms == 0 {
            0
        } else {
            let per_second: u128 = (result.counted as u128) * 1000000 / (duration_ms as u128);
            if per_second > 9223372036854775807 {
                i64::MAX
            } else {
                per_second as i64
            }
        };
        let met: i64 = if duration_ms <= self.performance_target_ms {
            1000
        } else {
            0
        };
        let mut points: Vec<NewMetric> = Vec::new();
        points.push(point("scan_duration_ms", count_milli(duration_ms), "performance"));
        points.push(point("files_counted", count_milli(result.counted), "scan"));
        points.push(point("files_skipped", count_milli(result.skipped), "scan"));
        points.push(point("files_per_second", rate, "performance"));
        points.push(point("performance_target_met", met, "performance"));
        note(
            log,
            &points,
            Ghost(performance_facts(*result, duration_ms, self.performance_target_ms)),
            now,
        );
    }

    /// Notes what a scan found of repositories: how many are active, how
    /// many are not, and how many there are.
    pub fn record_project_metrics(&self, repos: &Vec<DevRepo>, log: &mut MetricLog, now: i64)
        requires
            old(log).wf(),
        ensures
            final(log).wf(),
            noted(old(log), final(log), project_facts(repos@), now),
    {
        let (active, inactive) = self.project_detector.analyze_project_activity(repos);
        let mut points: Vec<NewMetric> = Vec::new();
        points.push(point("project_active", count_milli(active as u64), "scan"));
        points.push(point("project_inactive", count_milli(inactive as u64), "scan"));
        points.push(point("total_dev_repos", count_milli(repos.len() as u64), "scan"));
        note(log, &points, Ghost(project_facts(repos@)), now);
    }
}

} // verus!
