//! Per-model health counters and the transition rules that jail and
//! blacklist failing models.
//!
//! All rules are pure functions of the stats and of `now`, a Unix time in
//! whole seconds supplied by the caller.

use vstd::prelude::*;

verus! {

/// Effective consecutive failures that put a model in jail.
pub const MAX_CONSECUTIVE_FAILURES: u64 = 3;
/// Length of the first jail term, in hours.
pub const INITIAL_JAIL_HOURS: i64 = 24;
/// Each successive jail term is this many times longer.
pub const JAIL_TIME_MULTIPLIER: i64 = 2;
/// No jail term is longer than this many hours.
pub const MAX_JAIL_HOURS: i64 = 168;
/// A model jailed this many times is blacklisted.
pub const BLACKLIST_AFTER_JAIL_COUNT: u64 = 3;
/// Days after which a blacklisted model gets one probation attempt.
pub const BLACKLIST_RETRY_DAYS: i64 = 7;

pub const SECONDS_PER_HOUR: i64 = 3600;
pub const SECONDS_PER_DAY: i64 = 86400;

/// Latest clock reading the engine accepts, far beyond any realistic date;
/// keeping `now` below it makes every time calculation overflow-free.
pub const MAX_TIMESTAMP: i64 = 100_000_000_000_000;

/// A clock reading handed to the engine.
pub open spec fn now_ok(now: i64) -> bool {
    0 <= now <= MAX_TIMESTAMP
}

/// A timestamp stored in the stats; jail expiries may lie one jail term
/// past the clock bound.
pub open spec fn ts_ok(t: i64) -> bool {
    0 <= t <= MAX_TIMESTAMP + MAX_JAIL_HOURS * SECONDS_PER_HOUR
}

pub open spec fn ts_ok_opt(t: Option<i64>) -> bool {
    match t {
        None => true,
        Some(v) => ts_ok(v),
    }
}

/// Success and failure history of one model.
#[derive(Clone, Copy, Debug, PartialEq, Eq)]
pub struct ModelStats {
    pub success_count: u64,
    pub failure_count: u64,
    pub last_success: Option<i64>,
    pub last_failure: Option<i64>,
    pub jail_until: Option<i64>,
    pub jail_count: u64,
    pub blacklisted: bool,
    pub blacklisted_since: Option<i64>,
}

impl ModelStats {
    /// Internal consistency: a blacklist has a start time, a jail implies a
    /// recorded failure, and every timestamp is in range.
    pub open spec fn wf(self) -> bool {
        &&& (self.blacklisted ==> self.blacklisted_since is Some)
        &&& (self.jail_until is Some ==> self.failure_count >= 1)
        &&& ts_ok_opt(self.last_success)
        &&& ts_ok_opt(self.last_failure)
        &&& ts_ok_opt(self.jail_until)
        &&& ts_ok_opt(self.blacklisted_since)
    }
}

/// The all-zero history of a model never seen before.
pub open spec fn default_stats() -> ModelStats {
    ModelStats {
        success_count: 0,
        failure_count: 0,
        last_success: None,
        last_failure: None,
        jail_until: None,
        jail_count: 0,
        blacklisted: false,
        blacklisted_since: None,
    }
}

impl Default for ModelStats {
    fn default() -> (r: Self)
        ensures
            r == default_stats(),
            r.wf(),
    {
        ModelStats {
            success_count: 0,
            failure_count: 0,
            last_success: None,
            last_failure: None,
            jail_until: None,
            jail_count: 0,
            blacklisted: false,
            blacklisted_since: None,
        }
    }
}

/// Eligibility of a model whose stats are `stats` (or absent) at time `now`.
///
/// Absent stats mean the model is new and available.  A blacklisted model is
/// available only as a probation attempt, once its blacklist is older than
/// the retry window.  A jailed model is unavailable until its term expires.
pub open spec fn spec_available(stats: Option<ModelStats>, now: i64) -> bool {
    match stats {
        None => true,
        Some(st) => {
            if st.blacklisted {
                match st.blacklisted_since {
                    Some(since) => now - since > BLACKLIST_RETRY_DAYS * SECONDS_PER_DAY,
                    None => false,
                }
            } else if st.jail_until is Some && now < st.jail_until->0 {
                false
            } else {
                true
            }
        },
    }
}

pub open spec fn opt_deref(stats: Option<&ModelStats>) -> Option<ModelStats> {
    match stats {
        None => None,
        Some(st) => Some(*st),
    }
}

/// Decides if a model may be used now, given its jail/blacklist state.
pub fn is_model_available(stats: Option<&ModelStats>, now: i64) -> (r: bool)
    requires
        now_ok(now),
        match stats {
            None => true,
            Some(st) => st.wf(),
        },
    ensures
        r == spec_available(opt_deref(stats), now),
{
    match stats {
        None => true,
        Some(st) => {
            if st.blacklisted {
                match st.blacklisted_since {
                    Some(since) => now - since > BLACKLIST_RETRY_DAYS * SECONDS_PER_DAY,
                    None => false,
                }
            } else {
                match st.jail_until {
                    Some(until) => !(now < until),
                    None => true,
                }
            }
        },
    }
}

/// `JAIL_TIME_MULTIPLIER` raised to `n`.
pub open spec fn pow_mult(n: nat) -> int
    decreases n,
{
    if n == 0 {
        1
    } else {
        JAIL_TIME_MULTIPLIER * pow_mult((n - 1) as nat)
    }
}

/// Hours of the jail term imposed on a model already jailed `jail_count`
/// times: an exponential back-off capped at `MAX_JAIL_HOURS`.
pub open spec fn spec_jail_hours(jail_count: u64) -> int {
    let raw = INITIAL_JAIL_HOURS * pow_mult(jail_count as nat);
    if raw > MAX_JAIL_HOURS {
        MAX_JAIL_HOURS as int
    } else {
        raw
    }
}

pub proof fn lemma_pow_mult_ge_eight(n: nat)
    requires
        n >= 3,
    ensures
        pow_mult(n) >= 8,
    decreases n,
{
    if n == 3 {
        assert(pow_mult(0) == 1);
        assert(pow_mult(1) == 2);
        assert(pow_mult(2) == 4);
        assert(pow_mult(3) == 8);
    } else {
        lemma_pow_mult_ge_eight((n - 1) as nat);
    }
}

/// Hours of the next jail term for a model with this jail count.
pub fn jail_hours(jail_count: u64) -> (h: i64)
    ensures
        h == spec_jail_hours(jail_count),
        INITIAL_JAIL_HOURS <= h <= MAX_JAIL_HOURS,
{
    proof {
        assert(pow_mult(0) == 1);
        assert(pow_mult(1) == 2);
        assert(pow_mult(2) == 4);
        if jail_count >= 3 {
            lemma_pow_mult_ge_eight(jail_count as nat);
        }
    }
    if jail_count == 0 {
        24
    } else if jail_count == 1 {
        48
    } else if jail_count == 2 {
        96
    } else {
        168
    }
}

/// The stats after one recorded success at time `now`: counters advance and,
/// when the success postdates every failure, an active jail ends early.
/// Blacklist state and the jail count are never touched.
pub open spec fn spec_record_success(st: ModelStats, now: i64) -> ModelStats {
    let cleared = match st.last_failure {
        None => true,
        Some(lf) => now > lf,
    };
    ModelStats {
        success_count: (st.success_count + 1) as u64,
        last_success: Some(now),
        jail_until: if cleared {
            None
        } else {
            st.jail_until
        },
        ..st
    }
}

/// Records one successful call against the model's stats.
pub fn record_model_success(stats: &mut ModelStats, now: i64)
    requires
        old(stats).wf(),
        now_ok(now),
        old(stats).success_count < u64::MAX,
    ensures
        *final(stats) == spec_record_success(*old(stats), now),
        final(stats).wf(),
{
    stats.success_count = stats.success_count + 1;
    stats.last_success = Some(now);
    let cleared = match stats.last_failure {
        None => true,
        Some(lf) => now > lf,
    };
    if cleared {
        stats.jail_until = None;
    }
}

/// The stats after one recorded failure at time `now`.
///
/// A streak is active when the model has never succeeded or the failure
/// postdates the last success.  Within an active streak the effective
/// consecutive-failure count is the full (capped) failure count once the
/// last success is more than a day old, and exactly one otherwise — a lone
/// failure shortly after a success never jails.  Reaching the threshold
/// jails the model for `spec_jail_hours` and, from the third jailing on,
/// blacklists it.
pub open spec fn spec_record_failure(st: ModelStats, now: i64) -> ModelStats {
    let st1 = ModelStats { failure_count: (st.failure_count + 1) as u64, last_failure: Some(now), ..st };
    let streak = match st.last_success {
        None => true,
        Some(ls) => now > ls,
    };
    let consec: int = match st.last_success {
        None => if st1.failure_count <= MAX_CONSECUTIVE_FAILURES {
            st1.failure_count as int
        } else {
            MAX_CONSECUTIVE_FAILURES as int
        },
        Some(ls) => if (now - ls) / (SECONDS_PER_HOUR as int) > 24 {
            if st1.failure_count <= MAX_CONSECUTIVE_FAILURES {
                st1.failure_count as int
            } else {
                MAX_CONSECUTIVE_FAILURES as int
            }
        } else {
            1
        },
    };
    if streak && consec >= MAX_CONSECUTIVE_FAILURES {
        let st2 = ModelStats {
            jail_until: Some((now + spec_jail_hours(st.jail_count) * SECONDS_PER_HOUR) as i64),
            jail_count: (st.jail_count + 1) as u64,
            ..st1
        };
        if st2.jail_count >= BLACKLIST_AFTER_JAIL_COUNT {
            ModelStats { blacklisted: true, blacklisted_since: Some(now), ..st2 }
        } else {
            st2
        }
    } else {
        st1
    }
}

/// Records one failed call against the model's stats, jailing and
/// blacklisting it when the escalation rules say so.
pub fn record_model_failure(stats: &mut ModelStats, now: i64)
    requires
        old(stats).wf(),
        now_ok(now),
        old(stats).failure_count < u64::MAX,
        old(stats).jail_count < u64::MAX,
    ensures
        *final(stats) == spec_record_failure(*old(stats), now),
        final(stats).wf(),
{
    stats.failure_count = stats.failure_count + 1;
    stats.last_failure = Some(now);

    let streak = match stats.last_success {
        None => true,
        Some(ls) => now > ls,
    };
    if streak {
        let consec: u64 = match stats.last_success {
            None => if stats.failure_count <= MAX_CONSECUTIVE_FAILURES {
                stats.failure_count
            } else {
                MAX_CONSECUTIVE_FAILURES
            },
            Some(ls) => if (now - ls) / SECONDS_PER_HOUR > 24 {
                if stats.failure_count <= MAX_CONSECUTIVE_FAILURES {
                    stats.failure_count
                } else {
                    MAX_CONSECUTIVE_FAILURES
                }
            } else {
                1
            },
        };
        if consec >= MAX_CONSECUTIVE_FAILURES {
            let hours = jail_hours(stats.jail_count);
            stats.jail_until = Some(now + hours * SECONDS_PER_HOUR);
            stats.jail_count = stats.jail_count + 1;
            if stats.jail_count >= BLACKLIST_AFTER_JAIL_COUNT {
                stats.blacklisted = true;
                stats.blacklisted_since = Some(now);
            }
        }
    }
}

/// A failed call that timed out is blamed on local connectivity, not on
/// the model, when the model has no recorded failure at all or succeeded
/// within the last hour; such a timeout is not recorded against it.
pub open spec fn spec_likely_network_issue(stats: Option<ModelStats>, now: i64) -> bool {
    match stats {
        None => true,
        Some(st) => st.failure_count == 0 || (st.last_success is Some && now - st.last_success->0
            < SECONDS_PER_HOUR),
    }
}

/// Judges whether a timeout is more likely a local network problem than a
/// fault of the model.
pub fn is_likely_network_issue(stats: Option<&ModelStats>, now: i64) -> (r: bool)
    requires
        now_ok(now),
        match stats {
            None => true,
            Some(st) => st.wf(),
        },
    ensures
        r == spec_likely_network_issue(opt_deref(stats), now),
{
    match stats {
        None => true,
        Some(st) => st.failure_count == 0 || (match st.last_success {
            Some(ls) => now - ls < SECONDS_PER_HOUR,
            None => false,
        }),
    }
}

/// The stats after a manual release: jail, blacklist flag and jail count
/// are cleared; counters, timestamps and the blacklist start time stay.
pub open spec fn spec_unjail(st: ModelStats) -> ModelStats {
    ModelStats { jail_until: None, blacklisted: false, jail_count: 0, ..st }
}

/// A model with no blacklist and no jail is always available.
pub proof fn lemma_available_when_clear(st: ModelStats, now: i64)
    requires
        !st.blacklisted,
        st.jail_until is None,
    ensures
        spec_available(Some(st), now),
{
}

/// A blacklisted model becomes available exactly when its blacklist is
/// strictly older than the retry window, and not one second before.
pub proof fn lemma_blacklist_probation_window(st: ModelStats, now: i64)
    requires
        st.blacklisted,
        st.blacklisted_since is Some,
    ensures
        spec_available(Some(st), now) <==> now - st.blacklisted_since->0 > BLACKLIST_RETRY_DAYS
            * SECONDS_PER_DAY,
{
}

/// A success that postdates every failure ends an active jail, and no
/// success ever touches the blacklist or the jail count.
pub proof fn lemma_success_clears_jail(st: ModelStats, now: i64)
    ensures
        (match st.last_failure {
            None => true,
            Some(lf) => now > lf,
        }) ==> spec_record_success(st, now).jail_until is None,
        spec_record_success(st, now).blacklisted == st.blacklisted,
        spec_record_success(st, now).blacklisted_since == st.blacklisted_since,
        spec_record_success(st, now).jail_count == st.jail_count,
{
}

/// Three failures — with no success on record, or each more than a day
/// after the last success — jail a fresh model exactly at the third one,
/// never before.
pub proof fn lemma_three_failures_jail(st: ModelStats, t1: i64, t2: i64, t3: i64)
    requires
        st.failure_count == 0,
        st.jail_until is None,
        match st.last_success {
            None => true,
            Some(ls) => (t1 - ls) / (SECONDS_PER_HOUR as int) > 24 && (t2 - ls) / (SECONDS_PER_HOUR as int) > 24 && (
            t3 - ls) / (SECONDS_PER_HOUR as int) > 24,
        },
    ensures
        spec_record_failure(st, t1).jail_until is None,
        spec_record_failure(spec_record_failure(st, t1), t2).jail_until is None,
        spec_record_failure(spec_record_failure(spec_record_failure(st, t1), t2), t3).jail_until
            is Some,
{
    if st.last_success is Some {
        let ls = st.last_success->0;
        assert((t1 - ls) / (SECONDS_PER_HOUR as int) > 24 ==> t1 > ls) by (nonlinear_arith);
        assert((t2 - ls) / (SECONDS_PER_HOUR as int) > 24 ==> t2 > ls) by (nonlinear_arith);
        assert((t3 - ls) / (SECONDS_PER_HOUR as int) > 24 ==> t3 > ls) by (nonlinear_arith);
    }
}

/// A failure within a day of the last success counts as a lone fresh
/// failure, whatever the counters say: it never jails and never changes
/// the jail count.  (Streaks that span the day boundary are deliberately
/// undercounted this way.)
pub proof fn lemma_fresh_failure_never_jails(st: ModelStats, now: i64)
    requires
        st.last_success is Some,
        now > st.last_success->0,
        (now - st.last_success->0) / (SECONDS_PER_HOUR as int) <= 24,
    ensures
        spec_record_failure(st, now).jail_until == st.jail_until,
        spec_record_failure(st, now).jail_count == st.jail_count,
        spec_record_failure(st, now).blacklisted == st.blacklisted,
{
}

/// Jail terms grow strictly with each successive jailing until they hit the
/// cap, and never exceed it.
pub proof fn lemma_jail_hours_escalate(jail_count: u64)
    requires
        jail_count < u64::MAX,
    ensures
        INITIAL_JAIL_HOURS <= spec_jail_hours(jail_count) <= MAX_JAIL_HOURS,
        spec_jail_hours(jail_count) < MAX_JAIL_HOURS ==> spec_jail_hours(jail_count)
            < spec_jail_hours((jail_count + 1) as u64),
{
    assert(pow_mult(0) == 1);
    assert(pow_mult(1) == 2);
    assert(pow_mult(2) == 4);
    assert(pow_mult(3) == 8);
    if jail_count >= 3 {
        lemma_pow_mult_ge_eight(jail_count as nat);
    }
    if jail_count + 1 >= 3 && jail_count < 3 {
        lemma_pow_mult_ge_eight((jail_count + 1) as nat);
    }
}

/// A failure that raises the jail count to the blacklist threshold always
/// blacklists the model, and the threshold invariant is preserved by every
/// transition.
pub proof fn lemma_third_jailing_blacklists(st: ModelStats, now: i64)
    ensures
        ({
            let r = spec_record_failure(st, now);
            r.jail_count != st.jail_count && r.jail_count >= BLACKLIST_AFTER_JAIL_COUNT
                ==> r.blacklisted
        }),
        (st.jail_count >= BLACKLIST_AFTER_JAIL_COUNT ==> st.blacklisted) ==> ({
            let r = spec_record_failure(st, now);
            r.jail_count >= BLACKLIST_AFTER_JAIL_COUNT ==> r.blacklisted
        }),
        (st.jail_count >= BLACKLIST_AFTER_JAIL_COUNT ==> st.blacklisted) ==> ({
            let r = spec_record_success(st, now);
            r.jail_count >= BLACKLIST_AFTER_JAIL_COUNT ==> r.blacklisted
        }),
{
}

} // verus!
