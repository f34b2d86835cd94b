//! The gauge: how much could be freed now, how much is staged, and how
//! much was freed, over a window of time.

use crate::clock::{
    hour_of, lemma_div_mod_unique, ms_of_day, split_day, weekday_index, weekday_of, Weekday, DAY_MS,
    HOUR_MS,
};
use crate::db::database::{
    files_of_actions, of_kind_within, staged_within_marks, sum_sizes, total_size, Database,
};
use crate::models::ActionType;
use crate::ops::error::OpsError;
use crate::ops::space::{size_text, SpaceManager};
use crate::selector::scoring::Candidate;
use crate::commands::views_size;
use crate::selector::{
    candidates_size, selection, sum_candidate_sizes, FileSelector, ScoredBuckets,
};
use crate::seqs::masked;
use crate::text::{decimal_string, decimal_text, join2, signed_decimal_string, signed_decimal_text};
use vstd::prelude::*;
use vstd::string::StringExecFns;

verus! {

/// The three values of the gauge, in bytes, and the window they are for.
#[derive(Debug, Clone, Copy)]
pub struct GaugeState {
    pub potential_today_bytes: u64,
    pub staged_week_bytes: u64,
    pub freed_week_bytes: u64,
    pub computed_at: i64,
    pub window_start: i64,
    pub window_end: i64,
}

/// How the window of the gauge is set.
#[derive(Debug, Clone, Copy)]
pub struct GaugeConfig {
    /// Whether the window starts at the tidy day and hour; else it rolls.
    pub reset_on_tidy_day: bool,
    pub tidy_day: Weekday,
    /// The hour of the tidy day, from 0 to 23.
    pub tidy_hour: u32,
    pub rolling_window_days: i64,
}

impl Default for GaugeConfig {
    fn default() -> (out: Self)
        ensures
            !out.reset_on_tidy_day,
            out.tidy_day == Weekday::Fri,
            out.tidy_hour == 17,
            out.rolling_window_days == 7,
    {
        GaugeConfig {
            reset_on_tidy_day: false,
            tidy_day: Weekday::Fri,
            tidy_hour: 17,
            rolling_window_days: 7,
        }
    }
}

/// The cap with which the gauge asks for candidates: large, so that the
/// whole ranked pool counts.
pub const POOL_CAP: usize = 1000;

/// An instant at the full hour `hour` of a day `day` of the week.
pub open spec fn is_tidy_instant(t: int, day: Weekday, hour: u32) -> bool {
    &&& -0x8000_0000_0000_0000 <= t <= 0x7fff_ffff_ffff_ffff
    &&& weekday_index(t as i64) == day.days_from_monday()
    &&& ms_of_day(t as i64) == hour * HOUR_MS
}

/// The start of a rolling window of `days` days that ends at `now`, held
/// to the range of instants.
pub open spec fn rolling_start(now: i64, days: i64) -> int {
    let start = now - days * DAY_MS;
    if start < -0x8000_0000_0000_0000 {
        -0x8000_0000_0000_0000
    } else if start > 0x7fff_ffff_ffff_ffff {
        0x7fff_ffff_ffff_ffff
    } else {
        start
    }
}

/// The earliest instant for which the tidy window can be worked out:
/// eight days after the earliest instant.
pub const EARLIEST_TIDY_NOW: i64 = -9223372036163575808;

/// The earliest instant for which the tidy window can be worked out.
pub open spec fn earliest_tidy_now() -> int {
    -0x8000_0000_0000_0000 + 8 * DAY_MS
}

/// The latest instant for which the next reset can be worked out.
pub open spec fn latest_reset_now() -> int {
    0x7fff_ffff_ffff_ffff - 8 * DAY_MS
}

/// Works out the gauge.
#[derive(Debug, Clone, Copy)]
pub struct GaugeManager {
    pub config: GaugeConfig,
    pub selector: FileSelector,
}

impl GaugeManager {
    pub fn new() -> (out: GaugeManager)
        ensures
            !out.config.reset_on_tidy_day,
            out.config.tidy_day == Weekday::Fri,
            out.config.tidy_hour == 17,
            out.config.rolling_window_days == 7,
    {
        GaugeManager { config: GaugeConfig::default(), selector: FileSelector::new() }
    }

    pub fn update_config(&mut self, config: GaugeConfig)
        ensures
            final(self).config == config,
            final(self).selector == old(self).selector,
    {
        self.config = config;
    }

    pub fn get_config(&self) -> (out: &GaugeConfig)
        ensures
            *out == self.config,
    {
        &self.config
    }

    pub fn set_reset_on_tidy_day(&mut self, enabled: bool)
        ensures
            final(self).config == (GaugeConfig { reset_on_tidy_day: enabled, ..old(self).config }),
            final(self).selector == old(self).selector,
    {
        self.config.reset_on_tidy_day = enabled;
    }

    pub fn set_tidy_day(&mut self, day: Weekday)
        ensures
            final(self).config == (GaugeConfig { tidy_day: day, ..old(self).config }),
            final(self).selector == old(self).selector,
    {
        self.config.tidy_day = day;
    }

    pub fn set_tidy_hour(&mut self, hour: u32)
        ensures
            final(self).config == (GaugeConfig { tidy_hour: hour, ..old(self).config }),
            final(self).selector == old(self).selector,
    {
        self.config.tidy_hour = hour;
    }

    pub fn set_rolling_window_days(&mut self, days: i64)
        ensures
            final(self).config == (GaugeConfig { rolling_window_days: days, ..old(self).config }),
            final(self).selector == old(self).selector,
    {
        self.config.rolling_window_days = days;
    }

    /// The rolling window at `now`: from the configured number of days
    /// before `now` to `now`.
    pub fn get_rolling_window_bounds(&self, now: i64) -> (out: (i64, i64))
        ensures
            out.0 == rolling_start(now, self.config.rolling_window_days),
            out.1 == now,
    {
        let days = self.config.rolling_window_days;
        assert(-0x8000_0000_0000_0000 * 86400000 <= (days as i128) * (DAY_MS as i128)
            <= 0x8000_0000_0000_0000 * 86400000) by (nonlinear_arith)
            requires
                -0x8000_0000_0000_0000 <= days <= 0x7fff_ffff_ffff_ffff,
                DAY_MS == 86400000,
        ;
        let span: i128 = (days as i128) * (DAY_MS as i128);
        let start: i128 = now as i128 - span;
        let held: i64 = if start < i64::MIN as i128 {
            i64::MIN
        } else if start > i64::MAX as i128 {
            i64::MAX
        } else {
            start as i64
        };
        (held, now)
    }

    /// The tidy window at `now`: from the most recent tidy day and hour
    /// that is not after `now`, to `now`.
    pub fn get_tidy_day_bounds(&self, now: i64) -> (out: (i64, i64))
        requires
            self.config.tidy_hour < 24,
            now >= earliest_tidy_now(),
        ensures
            is_tidy_instant(out.0 as int, self.config.tidy_day, self.config.tidy_hour),
            out.0 <= now,
            now - out.0 < 7 * DAY_MS,
            out.1 == now,
    {
        let (day, rest) = split_day(now);
        let today = weekday_of(now);
        let tidy = self.config.tidy_day.num_days_from_monday();
        let at: i64 = (self.config.tidy_hour as i64) * HOUR_MS;
        let mut back: i64 = if today >= tidy {
            (today - tidy) as i64
        } else {
            (today + 7 - tidy) as i64
        };
        if back == 0 && rest < at {
            back = 7;
        }
        let start: i64 = (day - back) * DAY_MS + at;
        proof {
            assert(now as int == day * (DAY_MS as int) + rest) by {
                vstd::arithmetic::div_mod::lemma_fundamental_div_mod(now as int, DAY_MS as int);
            }
            lemma_div_mod_unique(start as int, DAY_MS as int, day - back, at as int);
            let q = (day + 3) / 7;
            assert(day + 3 == 7 * q + today) by {
                vstd::arithmetic::div_mod::lemma_fundamental_div_mod(day + 3, 7);
            }
            let e: int = if back == today - tidy {
                0
            } else {
                1
            };
            assert(day - back + 3 == (q - e) * 7 + tidy);
            lemma_div_mod_unique(day - back + 3, 7, q - e, tidy as int);
        }
        (start, now)
    }

    /// The window at `now`: the tidy window where the gauge resets on the
    /// tidy day, else the rolling window.
    pub fn get_window_bounds(&self, now: i64) -> (out: (i64, i64))
        requires
            self.config.reset_on_tidy_day ==> self.config.tidy_hour < 24,
        ensures
            out.1 == now,
            self.config.reset_on_tidy_day && now >= earliest_tidy_now() ==> is_tidy_instant(
                out.0 as int,
                self.config.tidy_day,
                self.config.tidy_hour,
            ) && out.0 <= now && now - out.0 < 7 * DAY_MS,
            self.config.reset_on_tidy_day && now < earliest_tidy_now() ==> out.0 == i64::MIN,
            !self.config.reset_on_tidy_day ==> out.0 == rolling_start(
                now,
                self.config.rolling_window_days,
            ),
            self.config.reset_on_tidy_day || self.config.rolling_window_days >= 0 ==> out.0
                <= out.1,
    {
        if self.config.reset_on_tidy_day {
            if now < EARLIEST_TIDY_NOW {
                return (i64::MIN, now);
            }
            self.get_tidy_day_bounds(now)
        } else {
            let out = self.get_rolling_window_bounds(now);
            assert(self.config.rolling_window_days >= 0 ==> out.0 <= now) by (nonlinear_arith)
                requires
                    out.0 == rolling_start(now, self.config.rolling_window_days),
                    DAY_MS == 86400000,
            ;
            out
        }
    }

    /// The next instant after `now` at which the gauge resets: the next
    /// tidy day and hour; none where the gauge does not reset on the tidy
    /// day.
    pub fn get_next_reset_time(&self, now: i64) -> (out: Option<i64>)
        requires
            self.config.reset_on_tidy_day ==> self.config.tidy_hour < 24 && earliest_tidy_now()
                <= now <= latest_reset_now(),
        ensures
            !self.config.reset_on_tidy_day ==> out is None,
            self.config.reset_on_tidy_day ==> {
                &&& out is Some
                &&& is_tidy_instant(out->0 as int, self.config.tidy_day, self.config.tidy_hour)
                &&& out->0 > now
                &&& out->0 - now <= 7 * DAY_MS
            },
    {
        if !self.config.reset_on_tidy_day {
            return None;
        }
        let (start, _) = self.get_tidy_day_bounds(now);
        let next: i64 = start + 7 * DAY_MS;
        proof {
            let (d, r) = (crate::clock::day_number(start), ms_of_day(start));
            assert(start as int == d * (DAY_MS as int) + r) by {
                vstd::arithmetic::div_mod::lemma_fundamental_div_mod(start as int, DAY_MS as int);
            }
            assert(0 <= r < DAY_MS) by {
                vstd::arithmetic::div_mod::lemma_mod_bound(start as int, DAY_MS as int);
            }
            lemma_div_mod_unique(next as int, DAY_MS as int, d + 7, r);
            let q = (d + 3) / 7;
            let w = (d + 3) % 7;
            assert(d + 3 == 7 * q + w) by {
                vstd::arithmetic::div_mod::lemma_fundamental_div_mod(d + 3, 7);
            }
            assert(0 <= w < 7) by {
                vstd::arithmetic::div_mod::lemma_mod_bound(d + 3, 7);
            }
            lemma_div_mod_unique(d + 7 + 3, 7, q + 1, w);
        }
        Some(next)
    }

    /// What could be freed now: the sizes of the candidates, summed and
    /// capped at the largest `u64`.
    pub fn compute_potential_today(&self, candidates: &Vec<Candidate>) -> (out: u64)
        ensures
            out == candidates_size(candidates@),
            out >= 0,
    {
        sum_candidate_sizes(candidates)
    }

    /// What is staged: the sizes of the files whose staged record has the
    /// status staged and was staged in the window, summed and capped.
    pub fn compute_staged_week(&self, db: &Database, window_start: i64, window_end: i64) -> (out:
        u64)
        requires
            db.wf(),
        ensures
            out == total_size(
                masked(db.files(), staged_within_marks(db.slots(), window_start, window_end)),
            ),
            out >= 0,
    {
        let files = db.list_current_staged_files_in_period(window_start, window_end);
        sum_sizes(&files)
    }

    /// What was freed: the sizes of the files that the delete actions of
    /// the window refer to, one size for each action, summed and capped.
    pub fn compute_freed_week(&self, db: &Database, window_start: i64, window_end: i64) -> (out:
        u64)
        requires
            db.wf(),
        ensures
            out == total_size(
                files_of_actions(
                    db.files(),
                    db.actions().filter(
                        of_kind_within(ActionType::Delete, window_start, window_end),
                    ),
                ),
            ),
            out >= 0,
    {
        let deletes = db.get_files_deleted_in_period(window_start, window_end);
        let files = db.files_for(&deletes);
        sum_sizes(&files)
    }

    /// The gauge at `now`, given the ranked files of the buckets.
    ///
    /// What could be freed now is the size of the selection from the
    /// buckets with a cap of 1000, so that the whole ranked pool counts,
    /// each file once. None of the three values is below zero. Where the
    /// gauge resets on the tidy day and `now` is so early that no tidy
    /// instant before it can be written, the window starts at the earliest
    /// instant.
    pub fn gauge_state(&self, db: &Database, ranked: &ScoredBuckets, now: i64) -> (out:
        GaugeState)
        requires
            db.wf(),
            self.config.reset_on_tidy_day ==> self.config.tidy_hour < 24,
        ensures
            out.computed_at == now,
            out.window_end == now,
            self.config.reset_on_tidy_day && now >= earliest_tidy_now() ==> is_tidy_instant(
                out.window_start as int,
                self.config.tidy_day,
                self.config.tidy_hour,
            ) && out.window_start <= now && now - out.window_start < 7 * DAY_MS,
            self.config.reset_on_tidy_day && now < earliest_tidy_now() ==> out.window_start
                == i64::MIN,
            !self.config.reset_on_tidy_day ==> out.window_start == rolling_start(
                now,
                self.config.rolling_window_days,
            ),
            self.config.reset_on_tidy_day || self.config.rolling_window_days >= 0
                ==> out.window_start <= out.window_end,
            out.potential_today_bytes == views_size(
                selection(*ranked, self.selector.config, POOL_CAP as nat),
            ),
            out.staged_week_bytes == total_size(
                masked(db.files(), staged_within_marks(db.slots(), out.window_start, now)),
            ),
            out.freed_week_bytes == total_size(
                files_of_actions(
                    db.files(),
                    db.actions().filter(of_kind_within(ActionType::Delete, out.window_start, now)),
                ),
            ),
            out.potential_today_bytes >= 0 && out.staged_week_bytes >= 0 && out.freed_week_bytes
                >= 0,
    {
        let (window_start, window_end) = self.get_window_bounds(now);
        let pool = self.selector.daily_candidates(Some(POOL_CAP), ranked);
        proof {
            crate::commands::lemma_views_size(pool@);
        }
        GaugeState {
            potential_today_bytes: self.compute_potential_today(&pool),
            staged_week_bytes: self.compute_staged_week(db, window_start, window_end),
            freed_week_bytes: self.compute_freed_week(db, window_start, window_end),
            computed_at: now,
            window_start,
            window_end,
        }
    }

    /// The window at `now` and what it is in words.
    pub fn get_window_info(&self, now: i64) -> (out: (i64, i64, String))
        requires
            self.config.reset_on_tidy_day ==> self.config.tidy_hour < 24,
        ensures
            out.1 == now,
            self.config.reset_on_tidy_day && now >= earliest_tidy_now() ==> is_tidy_instant(
                out.0 as int,
                self.config.tidy_day,
                self.config.tidy_hour,
            ) && out.0 <= now && now - out.0 < 7 * DAY_MS,
            self.config.reset_on_tidy_day && now < earliest_tidy_now() ==> out.0 == i64::MIN,
            self.config.reset_on_tidy_day ==> out.2@ == "Tidy day window: "@
                + self.config.tidy_day.name() + " "@ + decimal_text(self.config.tidy_hour as nat)
                + ":00"@,
            !self.config.reset_on_tidy_day ==> out.0 == rolling_start(
                now,
                self.config.rolling_window_days,
            ) && out.2@ == "Rolling "@ + signed_decimal_text(
                self.config.rolling_window_days as int,
            ) + " day window"@,
    {
        let (start, end) = self.get_window_bounds(now);
        let description = if self.config.reset_on_tidy_day {
            let a = join2("Tidy day window: ", self.config.tidy_day.to_string().as_str());
            let b = join2(a.as_str(), " ");
            let c = join2(b.as_str(), decimal_string(self.config.tidy_hour as u64).as_str());
            join2(c.as_str(), ":00")
        } else {
            let a = join2(
                "Rolling ",
                signed_decimal_string(self.config.rolling_window_days).as_str(),
            );
            join2(a.as_str(), " day window")
        };
        (start, end, description)
    }

    /// The three values of the gauge in words.
    pub fn get_gauge_summary(&self, state: &GaugeState) -> (out: String)
        ensures
            out@ == "Potential: "@ + size_text(state.potential_today_bytes) + ", Staged: "@
                + size_text(state.staged_week_bytes) + ", Freed: "@ + size_text(
                state.freed_week_bytes,
            ),
    {
        let a = join2("Potential: ", self.format_bytes(state.potential_today_bytes).as_str());
        let b = join2(a.as_str(), ", Staged: ");
        let c = join2(b.as_str(), self.format_bytes(state.staged_week_bytes).as_str());
        let d = join2(c.as_str(), ", Freed: ");
        join2(d.as_str(), self.format_bytes(state.freed_week_bytes).as_str())
    }

    /// How `bytes` is shown.
    pub fn format_bytes(&self, bytes: u64) -> (out: String)
        ensures
            out@ == size_text(bytes),
    {
        SpaceManager::new().format_bytes(bytes)
    }
}

} // verus!
