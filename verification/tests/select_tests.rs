use aicommit::prefs::{fallback_to_preferred_models, preferred_free_models};
use aicommit::select::{extract_model_size, find_best_available_model, model_available};
use aicommit::stats::ModelStats;
use aicommit::store::StatsStore;

const HOUR: i64 = 3600;

fn strings(v: &[&str]) -> Vec<String> {
    v.iter().map(|s| s.to_string()).collect()
}

fn jailed_stats(until: i64) -> ModelStats {
    let mut st = ModelStats::default();
    st.failure_count = 3;
    st.jail_until = Some(until);
    st
}

fn blacklisted_stats(since: i64) -> ModelStats {
    let mut st = ModelStats::default();
    st.failure_count = 3;
    st.jail_count = 3;
    st.blacklisted = true;
    st.blacklisted_since = Some(since);
    st
}

#[test]
fn extract_model_size_reads_size_tokens() {
    assert_eq!(extract_model_size("meta-llama/llama-3.3-70b-instruct:free"), 70);
    assert_eq!(extract_model_size("nvidia/llama-3.1-nemotron-ultra-253b-v1:free"), 253);
    assert_eq!(extract_model_size("qwen/qwen3-30b-a3b:free"), 30);
    assert_eq!(extract_model_size("meta-llama/llama-3.2-11b-vision-instruct:free"), 11);
    assert_eq!(extract_model_size("mistralai/mistral-7b-instruct:free"), 7);
    assert_eq!(extract_model_size("SHOUTY-70B-MODEL"), 70);
}

#[test]
fn extract_model_size_falls_back_to_size_words() {
    assert_eq!(extract_model_size("acme/model-large"), 15);
    assert_eq!(extract_model_size("acme/ultra-model"), 15);
    assert_eq!(extract_model_size("acme/medium-model"), 10);
    assert_eq!(extract_model_size("acme/small-model"), 5);
    assert_eq!(extract_model_size("acme/tiny-model"), 5);
    assert_eq!(extract_model_size("acme/whatever"), 0);
}

#[test]
fn sticky_model_wins_over_preference_rank() {
    // The last-used model is picked even though the preference list ranks
    // the other candidate far higher.
    let candidates = strings(&[
        "meta-llama/llama-4-maverick:free",
        "qwen/qwen3-8b:free",
    ]);
    let prefs = preferred_free_models();
    let store = StatsStore::new();
    let last_used = Some("qwen/qwen3-8b:free".to_string());
    let picked = find_best_available_model(&candidates, &store, &prefs, &last_used, 1_000);
    assert_eq!(picked, Some("qwen/qwen3-8b:free".to_string()));
}

#[test]
fn sticky_model_is_skipped_when_jailed() {
    let candidates = strings(&[
        "meta-llama/llama-4-maverick:free",
        "qwen/qwen3-8b:free",
    ]);
    let prefs = preferred_free_models();
    let mut store = StatsStore::new();
    store.set_stats(&"qwen/qwen3-8b:free".to_string(), jailed_stats(10_000));
    let last_used = Some("qwen/qwen3-8b:free".to_string());
    let picked = find_best_available_model(&candidates, &store, &prefs, &last_used, 1_000);
    assert_eq!(picked, Some("meta-llama/llama-4-maverick:free".to_string()));
}

#[test]
fn best_ranked_available_candidate_is_picked() {
    let candidates = strings(&[
        "unknown/model-9b",
        "qwen/qwen3-8b:free",
        "meta-llama/llama-4-scout:free",
    ]);
    let prefs = preferred_free_models();
    let store = StatsStore::new();
    let picked = find_best_available_model(&candidates, &store, &prefs, &None, 1_000);
    assert_eq!(picked, Some("meta-llama/llama-4-scout:free".to_string()));
}

#[test]
fn size_heuristic_prefers_the_larger_unlisted_model() {
    let candidates = strings(&["foo-7b", "foo-70b"]);
    let prefs = preferred_free_models();
    let store = StatsStore::new();
    let picked = find_best_available_model(&candidates, &store, &prefs, &None, 1_000);
    assert_eq!(picked, Some("foo-70b".to_string()));
}

#[test]
fn size_heuristic_breaks_ties_by_candidate_order() {
    let candidates = strings(&["bar-7b", "baz-7b"]);
    let prefs = preferred_free_models();
    let store = StatsStore::new();
    let picked = find_best_available_model(&candidates, &store, &prefs, &None, 1_000);
    assert_eq!(picked, Some("bar-7b".to_string()));
}

#[test]
fn selection_is_deterministic() {
    let candidates = strings(&["foo-7b", "foo-70b", "meta-llama/llama-4-scout:free"]);
    let prefs = preferred_free_models();
    let mut store = StatsStore::new();
    store.set_stats(&"foo-70b".to_string(), jailed_stats(50_000));
    let last_used = Some("foo-7b".to_string());
    let a = find_best_available_model(&candidates, &store, &prefs, &last_used, 1_000);
    let b = find_best_available_model(&candidates, &store, &prefs, &last_used, 1_000);
    assert_eq!(a, b);
}

#[test]
fn all_jailed_picks_the_soonest_release() {
    let candidates = strings(&["a-7b", "b-7b", "c-7b"]);
    let prefs = preferred_free_models();
    let mut store = StatsStore::new();
    store.set_stats(&"a-7b".to_string(), jailed_stats(90_000));
    store.set_stats(&"b-7b".to_string(), jailed_stats(60_000));
    store.set_stats(&"c-7b".to_string(), jailed_stats(70_000));
    let picked = find_best_available_model(&candidates, &store, &prefs, &None, 1_000);
    assert_eq!(picked, Some("b-7b".to_string()));
}

#[test]
fn all_blacklisted_still_returns_a_candidate() {
    let candidates = strings(&["a-7b", "b-7b"]);
    let prefs = preferred_free_models();
    let mut store = StatsStore::new();
    store.set_stats(&"a-7b".to_string(), blacklisted_stats(500));
    store.set_stats(&"b-7b".to_string(), blacklisted_stats(600));
    let picked = find_best_available_model(&candidates, &store, &prefs, &None, 1_000);
    assert_eq!(picked, Some("a-7b".to_string()));
}

#[test]
fn no_candidates_means_no_pick() {
    let prefs = preferred_free_models();
    let store = StatsStore::new();
    let picked = find_best_available_model(&Vec::new(), &store, &prefs, &None, 1_000);
    assert_eq!(picked, None);
}

#[test]
fn probation_reopens_a_blacklisted_model() {
    let since = 1_000;
    let now = since + 7 * 24 * HOUR + 1;
    let mut store = StatsStore::new();
    store.set_stats(&"a-7b".to_string(), blacklisted_stats(since));
    assert!(model_available(&store, "a-7b", now));
    assert!(!model_available(&store, "a-7b", now - 2));
}

#[test]
fn fallback_list_is_the_preference_list() {
    let fallback = fallback_to_preferred_models().unwrap();
    let prefs = preferred_free_models();
    assert_eq!(fallback, prefs);
    assert_eq!(fallback.len(), 70);
    assert_eq!(fallback[0], "meta-llama/llama-4-maverick:free");
}
