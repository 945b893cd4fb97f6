use aicommit::catalog::{
    get_available_free_models, is_free_entry, is_nearly_free_entry, select_free_models,
    CatalogEntry, FREE_PRICE_EPSILON_NANO,
};
use aicommit::prefs::preferred_free_models;

fn entry(id: &str) -> CatalogEntry {
    CatalogEntry {
        id: id.to_string(),
        free_flag: None,
        free_tokens: None,
        prompt_price_nano: None,
        completion_price_nano: None,
    }
}

#[test]
fn free_marker_in_identifier_counts_as_free() {
    assert!(is_free_entry(&entry("acme/model:free")));
    assert!(!is_free_entry(&entry("acme/model")));
}

#[test]
fn explicit_free_flag_counts_as_free() {
    let mut e = entry("acme/model");
    e.free_flag = Some(true);
    assert!(is_free_entry(&e));
    e.free_flag = Some(false);
    assert!(!is_free_entry(&e));
}

#[test]
fn nonzero_free_quota_counts_as_free() {
    let mut e = entry("acme/model");
    e.free_tokens = Some(1);
    assert!(is_free_entry(&e));
    e.free_tokens = Some(0);
    assert!(!is_free_entry(&e));
}

#[test]
fn zero_prices_count_as_free_but_absent_prices_do_not() {
    let mut e = entry("acme/model");
    e.prompt_price_nano = Some(0);
    e.completion_price_nano = Some(0);
    assert!(is_free_entry(&e));
    e.completion_price_nano = None;
    assert!(!is_free_entry(&e));
}

#[test]
fn epsilon_prices_are_only_nearly_free() {
    let mut e = entry("acme/model");
    e.prompt_price_nano = Some(FREE_PRICE_EPSILON_NANO);
    e.completion_price_nano = Some(FREE_PRICE_EPSILON_NANO);
    assert!(!is_free_entry(&e));
    assert!(is_nearly_free_entry(&e));
    e.prompt_price_nano = Some(FREE_PRICE_EPSILON_NANO + 1);
    assert!(!is_nearly_free_entry(&e));
}

#[test]
fn strict_pass_suppresses_the_relaxed_pass() {
    let mut cheap = entry("acme/cheap");
    cheap.prompt_price_nano = Some(10);
    cheap.completion_price_nano = Some(10);
    let catalog = vec![entry("acme/free-one:free"), cheap];
    let ids = select_free_models(&catalog);
    assert_eq!(ids, vec!["acme/free-one:free".to_string()]);
}

#[test]
fn relaxed_pass_runs_only_when_the_strict_pass_is_empty() {
    let mut cheap = entry("acme/cheap");
    cheap.prompt_price_nano = Some(10);
    cheap.completion_price_nano = Some(10);
    let catalog = vec![entry("acme/paid"), cheap];
    let ids = select_free_models(&catalog);
    assert_eq!(ids, vec!["acme/cheap".to_string()]);
}

#[test]
fn catalog_order_is_kept() {
    let catalog = vec![
        entry("acme/b:free"),
        entry("acme/paid"),
        entry("acme/a:free"),
    ];
    let ids = select_free_models(&catalog);
    assert_eq!(ids, vec!["acme/b:free".to_string(), "acme/a:free".to_string()]);
}

#[test]
fn failed_fetch_degrades_to_the_preference_list() {
    let resolved = get_available_free_models(None).unwrap();
    assert_eq!(resolved, preferred_free_models());
}

#[test]
fn catalog_without_free_models_degrades_to_the_preference_list() {
    let catalog = vec![entry("acme/paid-one"), entry("acme/paid-two")];
    let resolved = get_available_free_models(Some(catalog)).unwrap();
    assert_eq!(resolved, preferred_free_models());
}

#[test]
fn usable_catalog_is_taken_as_is() {
    let catalog = vec![entry("acme/one:free"), entry("acme/two:free")];
    let resolved = get_available_free_models(Some(catalog)).unwrap();
    assert_eq!(
        resolved,
        vec!["acme/one:free".to_string(), "acme/two:free".to_string()]
    );
}
