use aicommit::codec::{decode_provider_state, encode_provider_state};
use aicommit::state::ProviderState;
use aicommit::stats::ModelStats;
use aicommit::store::StatsStore;

fn sample_state() -> ProviderState {
    let mut store = StatsStore::new();
    let mut healthy = ModelStats::default();
    healthy.success_count = 12;
    healthy.failure_count = 2;
    healthy.last_success = Some(1_700_000_000);
    healthy.last_failure = Some(1_699_000_000);
    store.set_stats(&"meta-llama/llama-4-maverick:free".to_string(), healthy);

    let mut broken = ModelStats::default();
    broken.failure_count = 9;
    broken.last_failure = Some(1_700_000_500);
    broken.jail_until = Some(1_700_604_800);
    broken.jail_count = 3;
    broken.blacklisted = true;
    broken.blacklisted_since = Some(1_700_000_500);
    store.set_stats(&"acme/broken-7b".to_string(), broken);

    let mut st = ProviderState::new(
        "provider-1".to_string(),
        "test-key-123".to_string(),
        200,
        200,
    );
    st.model_stats = store;
    st.last_used_model = Some("meta-llama/llama-4-maverick:free".to_string());
    st
}

#[test]
fn round_trip_gives_back_the_same_state() {
    let st = sample_state();
    let encoded = encode_provider_state(&st);
    let decoded = decode_provider_state(encoded.as_str()).expect("a fresh encoding must decode");
    assert_eq!(decoded, st);
    assert_eq!(decoded.model_stats, st.model_stats);
}

#[test]
fn round_trip_of_an_empty_store() {
    let st = ProviderState::new("p".to_string(), "k".to_string(), 150, 300);
    let encoded = encode_provider_state(&st);
    let decoded = decode_provider_state(encoded.as_str()).unwrap();
    assert_eq!(decoded, st);
}

#[test]
fn round_trip_keeps_negative_parameters() {
    let st = ProviderState::new("p".to_string(), "k".to_string(), -1, -250);
    let encoded = encode_provider_state(&st);
    let decoded = decode_provider_state(encoded.as_str()).unwrap();
    assert_eq!(decoded.max_tokens, -1);
    assert_eq!(decoded.temperature_milli, -250);
}

#[test]
fn minimal_state_has_the_documented_layout() {
    let st = ProviderState::new("a".to_string(), String::new(), 200, 200);
    let encoded = encode_provider_state(&st);
    assert_eq!(encoded, "00000001a00000000+0000000200+0000000200n00000000");
}

#[test]
fn truncated_encodings_are_rejected() {
    let st = sample_state();
    let encoded = encode_provider_state(&st);
    let cut: String = encoded.chars().take(encoded.chars().count() - 1).collect();
    assert!(decode_provider_state(cut.as_str()).is_none());
}

#[test]
fn trailing_garbage_is_rejected() {
    let st = sample_state();
    let mut encoded = encode_provider_state(&st);
    encoded.push('x');
    assert!(decode_provider_state(encoded.as_str()).is_none());
}

#[test]
fn duplicate_model_keys_are_rejected() {
    let mut store = StatsStore::new();
    store.set_stats(&"q1".to_string(), ModelStats::default());
    store.set_stats(&"q2".to_string(), ModelStats::default());
    let mut st = ProviderState::new("p".to_string(), "k".to_string(), 1, 1);
    st.model_stats = store;
    let encoded = encode_provider_state(&st);
    assert!(decode_provider_state(encoded.as_str()).is_some());
    // Forging the second record's key onto the first yields two entries
    // under one identifier, which no store may hold.
    let forged = encoded.replace("q2", "q1");
    assert!(decode_provider_state(forged.as_str()).is_none());
}

#[test]
fn nonsense_is_rejected() {
    assert!(decode_provider_state("").is_none());
    assert!(decode_provider_state("hello world").is_none());
    assert!(decode_provider_state("0000000x").is_none());
}
