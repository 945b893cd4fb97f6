use aicommit::stats::{
    is_likely_network_issue, is_model_available, jail_hours, record_model_failure,
    record_model_success, ModelStats,
};

const HOUR: i64 = 3600;
const DAY: i64 = 86400;

fn fresh() -> ModelStats {
    ModelStats::default()
}

#[test]
fn absent_stats_are_available() {
    assert!(is_model_available(None, 1_000_000));
}

#[test]
fn clear_stats_are_available() {
    // No blacklist and no jail: always available, whatever the counters.
    let mut st = fresh();
    st.success_count = 5;
    st.failure_count = 9;
    st.last_success = Some(500);
    st.last_failure = Some(600);
    assert!(is_model_available(Some(&st), 1_000));
    assert!(is_model_available(Some(&st), 0));
}

#[test]
fn jailed_model_is_unavailable_until_expiry() {
    let mut st = fresh();
    st.failure_count = 3;
    st.jail_until = Some(10_000);
    assert!(!is_model_available(Some(&st), 9_999));
    assert!(is_model_available(Some(&st), 10_000));
}

#[test]
fn blacklist_probation_opens_exactly_after_window() {
    let mut st = fresh();
    st.failure_count = 3;
    st.blacklisted = true;
    st.blacklisted_since = Some(1_000);
    // Not one second before the window closes...
    assert!(!is_model_available(Some(&st), 1_000 + 7 * DAY));
    // ...but the very next second.
    assert!(is_model_available(Some(&st), 1_000 + 7 * DAY + 1));
}

#[test]
fn three_failures_jail_at_the_third_never_before() {
    let mut st = fresh();
    record_model_failure(&mut st, 1_000);
    assert_eq!(st.jail_until, None);
    record_model_failure(&mut st, 2_000);
    assert_eq!(st.jail_until, None);
    record_model_failure(&mut st, 3_000);
    assert!(st.jail_until.is_some());
    assert_eq!(st.jail_until, Some(3_000 + 24 * HOUR));
    assert_eq!(st.jail_count, 1);
    assert_eq!(st.failure_count, 3);
}

#[test]
fn failures_shortly_after_a_success_do_not_jail() {
    let mut st = fresh();
    record_model_success(&mut st, 100_000);
    // Each failure within a day of the success counts as a lone failure.
    record_model_failure(&mut st, 100_000 + HOUR);
    record_model_failure(&mut st, 100_000 + 2 * HOUR);
    record_model_failure(&mut st, 100_000 + 3 * HOUR);
    assert_eq!(st.jail_until, None);
    assert_eq!(st.failure_count, 3);
}

#[test]
fn failures_long_after_a_success_jail_at_the_third() {
    let base = 1_000_000;
    let mut st = fresh();
    record_model_success(&mut st, base);
    let late = base + 2 * DAY;
    record_model_failure(&mut st, late);
    assert_eq!(st.jail_until, None);
    record_model_failure(&mut st, late + 10);
    assert_eq!(st.jail_until, None);
    record_model_failure(&mut st, late + 20);
    assert!(st.jail_until.is_some());
}

#[test]
fn jail_terms_escalate_and_cap() {
    // Successive jailings of one chronically failing model: each term is
    // twice the last, capped at 168 hours.
    let mut st = fresh();
    let t1 = 10_000;
    record_model_failure(&mut st, t1);
    record_model_failure(&mut st, t1 + 10);
    record_model_failure(&mut st, t1 + 20);
    assert_eq!(st.jail_until, Some(t1 + 20 + 24 * HOUR));
    assert_eq!(st.jail_count, 1);

    record_model_failure(&mut st, t1 + 30);
    assert_eq!(st.jail_until, Some(t1 + 30 + 48 * HOUR));
    assert_eq!(st.jail_count, 2);

    record_model_failure(&mut st, t1 + 40);
    assert_eq!(st.jail_until, Some(t1 + 40 + 96 * HOUR));
    assert_eq!(st.jail_count, 3);

    record_model_failure(&mut st, t1 + 50);
    assert_eq!(st.jail_until, Some(t1 + 50 + 168 * HOUR));
    assert_eq!(st.jail_count, 4);

    record_model_failure(&mut st, t1 + 60);
    assert_eq!(st.jail_until, Some(t1 + 60 + 168 * HOUR));
    assert_eq!(st.jail_count, 5);
}

#[test]
fn jail_hours_table() {
    assert_eq!(jail_hours(0), 24);
    assert_eq!(jail_hours(1), 48);
    assert_eq!(jail_hours(2), 96);
    assert_eq!(jail_hours(3), 168);
    assert_eq!(jail_hours(10), 168);
}

#[test]
fn third_jailing_blacklists() {
    let mut st = fresh();
    let mut t = 10_000;
    // Keep failing: jailings happen at the 3rd, 4th, 5th failure.
    for _ in 0..4 {
        record_model_failure(&mut st, t);
        t += 10;
    }
    assert_eq!(st.jail_count, 2);
    assert!(!st.blacklisted);
    record_model_failure(&mut st, t);
    assert_eq!(st.jail_count, 3);
    assert!(st.blacklisted);
    assert_eq!(st.blacklisted_since, Some(t));
}

#[test]
fn success_clears_jail_but_never_the_blacklist() {
    let mut st = fresh();
    let mut t = 10_000;
    for _ in 0..5 {
        record_model_failure(&mut st, t);
        t += 10;
    }
    assert!(st.blacklisted);
    assert!(st.jail_until.is_some());
    let jc = st.jail_count;

    record_model_success(&mut st, t + 10);
    assert_eq!(st.jail_until, None);
    assert!(st.blacklisted);
    assert_eq!(st.jail_count, jc);
    assert_eq!(st.success_count, 1);
}

#[test]
fn success_not_newer_than_failure_keeps_jail() {
    let mut st = fresh();
    let mut t = 10_000;
    for _ in 0..3 {
        record_model_failure(&mut st, t);
        t += 10;
    }
    let jail = st.jail_until;
    assert!(jail.is_some());
    // A success stamped at the very second of the last failure is not
    // strictly newer, so the jail stands.
    record_model_success(&mut st, t - 10);
    assert_eq!(st.jail_until, jail);
}

#[test]
fn timeout_blame_rules() {
    // No stats at all: a timeout looks like a local network problem.
    assert!(is_likely_network_issue(None, 1_000));
    // Never failed before: likewise.
    let mut st = fresh();
    st.success_count = 1;
    st.last_success = Some(900);
    assert!(is_likely_network_issue(Some(&st), 1_000));
    // Failed before but succeeded within the hour: still the network.
    st.failure_count = 2;
    st.last_failure = Some(950);
    assert!(is_likely_network_issue(Some(&st), 900 + 3599));
    // Failed before with no recent success: the model takes the blame.
    assert!(!is_likely_network_issue(Some(&st), 900 + 3600));
}
