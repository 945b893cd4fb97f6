use aicommit::report::{format_model_status, model_status_report};
use aicommit::state::{unjail_all_models, unjail_model, ProviderState};
use aicommit::stats::ModelStats;
use aicommit::store::StatsStore;

const HOUR: i64 = 3600;

fn state_with(models: &[(&str, ModelStats)]) -> ProviderState {
    let mut store = StatsStore::new();
    for (id, st) in models {
        store.set_stats(&id.to_string(), *st);
    }
    let mut state = ProviderState::new("p".to_string(), "k".to_string(), 200, 200);
    state.model_stats = store;
    state
}

fn punished() -> ModelStats {
    let mut st = ModelStats::default();
    st.failure_count = 5;
    st.jail_until = Some(50_000);
    st.jail_count = 3;
    st.blacklisted = true;
    st.blacklisted_since = Some(40_000);
    st
}

#[test]
fn store_keeps_insertion_order_across_updates() {
    let mut store = StatsStore::new();
    store.set_stats(&"first".to_string(), ModelStats::default());
    store.set_stats(&"second".to_string(), ModelStats::default());
    let mut updated = ModelStats::default();
    updated.success_count = 7;
    store.set_stats(&"first".to_string(), updated);
    assert_eq!(store.len(), 2);
    assert_eq!(store.key_at(0), "first");
    assert_eq!(store.key_at(1), "second");
    assert_eq!(store.stats_at(0).success_count, 7);
}

#[test]
fn recording_success_updates_stats_and_sticky_model() {
    let mut state = state_with(&[]);
    state.record_success(&"acme/model-7b".to_string(), 1_000);
    assert_eq!(state.last_used_model, Some("acme/model-7b".to_string()));
    let st = state.model_stats.get("acme/model-7b").unwrap();
    assert_eq!(st.success_count, 1);
    assert_eq!(st.last_success, Some(1_000));
}

#[test]
fn recording_failure_leaves_other_models_alone() {
    let mut healthy = ModelStats::default();
    healthy.success_count = 4;
    healthy.last_success = Some(900);
    let mut state = state_with(&[("good", healthy)]);
    state.record_failure(&"bad".to_string(), 1_000);
    assert_eq!(state.model_stats.get("good").unwrap().success_count, 4);
    let bad = state.model_stats.get("bad").unwrap();
    assert_eq!(bad.failure_count, 1);
    assert_eq!(bad.last_failure, Some(1_000));
    assert_eq!(state.last_used_model, None);
}

#[test]
fn releasing_one_model_touches_only_that_model() {
    let mut state = state_with(&[("a", punished()), ("b", punished())]);
    assert!(unjail_model(&mut state, "a").is_ok());

    let a = state.model_stats.get("a").unwrap();
    assert_eq!(a.jail_until, None);
    assert!(!a.blacklisted);
    assert_eq!(a.jail_count, 0);
    // Counters and history survive a release.
    assert_eq!(a.failure_count, 5);

    let b = state.model_stats.get("b").unwrap();
    assert!(b.blacklisted);
    assert_eq!(b.jail_until, Some(50_000));
    assert_eq!(b.jail_count, 3);
}

#[test]
fn wildcard_release_clears_every_model() {
    let mut state = state_with(&[("a", punished()), ("b", punished()), ("c", punished())]);
    assert!(unjail_model(&mut state, "*").is_ok());
    for id in ["a", "b", "c"] {
        let st = state.model_stats.get(id).unwrap();
        assert_eq!(st.jail_until, None);
        assert!(!st.blacklisted);
        assert_eq!(st.jail_count, 0);
    }
}

#[test]
fn unjail_all_is_the_wildcard() {
    let mut state = state_with(&[("a", punished())]);
    assert!(unjail_all_models(&mut state).is_ok());
    assert!(!state.model_stats.get("a").unwrap().blacklisted);
}

#[test]
fn releasing_an_unknown_model_is_an_error() {
    let mut state = state_with(&[("a", punished())]);
    let r = unjail_model(&mut state, "zz");
    assert_eq!(r, Err("Model 'zz' not found in statistics".to_string()));
    assert!(state.model_stats.get("a").unwrap().blacklisted);
}

#[test]
fn status_lines_carry_counters_and_ages() {
    let now = 1_000_000;
    let mut st = ModelStats::default();
    st.success_count = 2;
    st.failure_count = 1;
    st.last_success = Some(now - 2 * HOUR);
    st.last_failure = Some(now - 60);
    let line = format_model_status("acme/m", &st, now);
    assert_eq!(
        line,
        "acme/m: ACTIVE (Success: 2, Failure: 1, Last success: 2 hours ago, Last failure: 1 minutes ago)"
    );
}

#[test]
fn jailed_status_lines_show_remaining_hours() {
    let now = 1_000_000;
    let mut st = ModelStats::default();
    st.failure_count = 3;
    st.jail_until = Some(now + 2 * HOUR);
    let line = format_model_status("acme/m", &st, now);
    assert_eq!(
        line,
        "acme/m: JAILED (2h remaining) (Success: 0, Failure: 3, Last success: Never, Last failure: Never)"
    );
}

#[test]
fn never_seen_timestamps_render_as_never() {
    let st = ModelStats::default();
    let line = format_model_status("m", &st, 500);
    assert_eq!(line, "m: ACTIVE (Success: 0, Failure: 0, Last success: Never, Last failure: Never)");
}

#[test]
fn report_groups_and_sorts_models() {
    let now = 10_000;
    let mut jailed = ModelStats::default();
    jailed.failure_count = 3;
    jailed.jail_until = Some(now + HOUR);
    let mut expired = ModelStats::default();
    expired.failure_count = 3;
    expired.jail_until = Some(now - 1);
    let state = state_with(&[
        ("c", ModelStats::default()),
        ("a", ModelStats::default()),
        ("j", jailed),
        ("x", punished()),
        ("e", expired),
    ]);
    let (active, in_jail, blacklisted) = model_status_report(&state, now);
    assert_eq!(active.len(), 3);
    assert!(active[0].starts_with("a:"));
    assert!(active[1].starts_with("c:"));
    assert!(active[2].starts_with("e:"));
    assert_eq!(in_jail.len(), 1);
    assert!(in_jail[0].starts_with("j:"));
    assert_eq!(blacklisted.len(), 1);
    assert!(blacklisted[0].starts_with("x:"));
}
