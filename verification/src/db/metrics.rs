//! The series of metrics: points are appended and never changed.

use crate::db::database::StoreError;
use crate::models::{Duplicate, Metric, NewMetric};
use vstd::prelude::*;

verus! {

/// The recorded points, in the order in which they were recorded.
pub struct MetricLog {
    points: Vec<Metric>,
    next_id: i64,
}

/// The points are consistent: identifiers are given and ascend.
pub open spec fn points_ok(points: Seq<Metric>, next_id: i64) -> bool {
    &&& 0 < next_id
    &&& forall|i: int|
        0 <= i < points.len() ==> (#[trigger] points[i]).id is Some && 0 < points[i].id->0
            < next_id
    &&& forall|i: int, j: int|
        0 <= i < j < points.len() ==> (#[trigger] points[i]).id->0 < (#[trigger] points[j]).id->0
}

/// The point `m` is what was asked for in `new`, recorded at `now` under
/// the identifier `id`.
pub open spec fn point_of(m: Metric, id: i64, new: NewMetric, now: i64) -> bool {
    &&& m.id == Some(id)
    &&& m.metric@ == new.metric@
    &&& m.value_milli == new.value_milli
    &&& m.context == new.context
    &&& m.created_at == now
}

/// How many of `wanted` points can be recorded when the next identifier
/// is `next_id`: all of them, or as many as identifiers are left.
pub open spec fn room_for(next_id: i64, wanted: nat) -> nat {
    if wanted <= i64::MAX - next_id {
        wanted
    } else {
        (i64::MAX - next_id) as nat
    }
}

impl MetricLog {
    /// The recorded points.
    pub closed spec fn points(&self) -> Seq<Metric> {
        self.points@
    }

    /// The identifier that the next point gets.
    pub closed spec fn next_id(&self) -> i64 {
        self.next_id
    }

    /// The log is consistent.
    pub open spec fn wf(&self) -> bool {
        points_ok(self.points(), self.next_id())
    }

    /// An empty log.
    pub fn new() -> (out: MetricLog)
        ensures
            out.wf(),
            out.points().len() == 0,
            out.next_id() == 1,
    {
        MetricLog { points: Vec::new(), next_id: 1 }
    }

    /// The log that holds `points`, where they are consistent: every
    /// point has an identifier above zero, and the identifiers ascend.
    pub fn from_points(points: Vec<Metric>) -> (out: Option<MetricLog>)
        ensures
            out is Some <==> exists|next: i64| points_ok(points@, next),
            out matches Some(log) ==> log.wf() && log.points() == points@,
    {
        let mut last: i64 = 0;
        let mut i: usize = 0;
        while i < points.len()
            invariant
                i <= points.len(),
                0 <= last < i64::MAX,
                forall|k: int|
                    0 <= k < i ==> (#[trigger] points@[k]).id is Some && 0 < points@[k].id->0
                        <= last,
                forall|a: int, b: int|
                    0 <= a < b < i ==> (#[trigger] points@[a]).id->0 < (#[trigger] points@[b]).id->0,
                i > 0 ==> points@[i - 1].id == Some(last),
                i == 0 ==> last == 0,
            decreases points.len() - i,
        {
            let id = match points[i].id {
                Some(id) => id,
                None => {
                    assert forall|next: i64| !points_ok(points@, next) by {
                        if points_ok(points@, next) {
                            let here = points@[i as int];
                            assert(here.id is Some);
                        }
                    }
                    return None;
                },
            };
            if id <= last || id == i64::MAX {
                assert forall|next: i64| !points_ok(points@, next) by {
                    if points_ok(points@, next) {
                        let here = points@[i as int];
                        assert(here.id is Some && 0 < here.id->0 < next);
                        if i > 0 {
                            let prev = points@[i - 1];
                            assert(prev.id->0 < here.id->0);
                        }
                    }
                }
                return None;
            }
            last = id;
            i = i + 1;
        }
        let log = MetricLog { points, next_id: last + 1 };
        assert(points_ok(log.points(), log.next_id()));
        Some(log)
    }

    /// A copy of the recorded points.
    pub fn all_points(&self) -> (out: Vec<Metric>)
        ensures
            out@ == self.points(),
    {
        crate::models::duplicate_all(&self.points)
    }

    /// Appends a point, recorded at `now`, and returns its identifier.
    /// Fails, changing nothing, only where no identifier is left.
    pub fn insert_metric(&mut self, metric: &NewMetric, now: i64) -> (out: Result<i64, StoreError>)
        requires
            old(self).wf(),
        ensures
            final(self).wf(),
            old(self).next_id() < i64::MAX ==> {
                &&& out == Ok::<i64, StoreError>(old(self).next_id())
                &&& final(self).points().len() == old(self).points().len() + 1
                &&& final(self).points().drop_last() == old(self).points()
                &&& point_of(final(self).points().last(), old(self).next_id(), *metric, now)
                &&& final(self).next_id() == old(self).next_id() + 1
            },
            old(self).next_id() == i64::MAX ==> {
                &&& out == Err::<i64, StoreError>(StoreError::IdsExhausted)
                &&& final(self).points() == old(self).points()
                &&& final(self).next_id() == old(self).next_id()
            },
    {
        if self.next_id == i64::MAX {
            return Err(StoreError::IdsExhausted);
        }
        let id = self.next_id;
        self.points.push(
            Metric {
                id: Some(id),
                metric: metric.metric.clone(),
                value_milli: metric.value_milli,
                context: metric.context.duplicate(),
                created_at: now,
            },
        );
        self.next_id = id + 1;
        proof {
            assert(self.points().drop_last() =~= old(self).points());
            assert forall|i: int, j: int| 0 <= i < j < self.points().len() implies (
            #[trigger] self.points()[i]).id->0 < (#[trigger] self.points()[j]).id->0 by {
                if j < old(self).points().len() {
                    assert(old(self).points()[i].id->0 < old(self).points()[j].id->0);
                } else {
                    assert(old(self).points()[i].id->0 < old(self).next_id());
                }
            }
        }
        Ok(id)
    }

    /// Appends the points of `metrics` in their order, recorded at `now`,
    /// as far as identifiers are left; what is left over is dropped.
    pub fn insert_all(&mut self, metrics: &Vec<NewMetric>, now: i64)
        requires
            old(self).wf(),
        ensures
            final(self).wf(),
            final(self).points().len() == old(self).points().len() + room_for(
                old(self).next_id(),
                metrics@.len(),
            ),
            final(self).points().take(old(self).points().len() as int) == old(self).points(),
            forall|k: int|
                0 <= k < room_for(old(self).next_id(), metrics@.len()) ==> point_of(
                    #[trigger] final(self).points()[old(self).points().len() + k],
                    (old(self).next_id() + k) as i64,
                    metrics@[k],
                    now,
                ),
            final(self).next_id() == old(self).next_id() + room_for(
                old(self).next_id(),
                metrics@.len(),
            ),
    {
        let ghost start = self.points().len();
        let mut i: usize = 0;
        assert(self.points().take(start as int) =~= old(self).points());
        while i < metrics.len()
            invariant
                i <= metrics.len(),
                self.wf(),
                start == old(self).points().len(),
                self.points().len() == start + room_for(old(self).next_id(), i as nat),
                self.points().take(start as int) == old(self).points(),
                forall|k: int|
                    0 <= k < room_for(old(self).next_id(), i as nat) ==> point_of(
                        #[trigger] self.points()[start + k],
                        (old(self).next_id() + k) as i64,
                        metrics@[k],
                        now,
                    ),
                self.next_id() == old(self).next_id() + room_for(old(self).next_id(), i as nat),
            decreases metrics.len() - i,
        {
            let ghost before = self.points();
            let _ = self.insert_metric(&metrics[i], now);
            proof {
                assert(self.points().take(start as int) =~= before.take(start as int));
                assert forall|k: int|
                    0 <= k < room_for(old(self).next_id(), (i + 1) as nat) implies point_of(
                    #[trigger] self.points()[start + k],
                    (old(self).next_id() + k) as i64,
                    metrics@[k],
                    now,
                ) by {
                    if k < room_for(old(self).next_id(), i as nat) {
                        assert(self.points()[start + k] == before[start + k]);
                    }
                }
            }
            i = i + 1;
        }
    }
}

} // verus!
