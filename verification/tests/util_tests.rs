use aicommit::util::{
    default_retry_attempts, get_safe_slice_length, increment_version, parse_duration,
    process_git_diff_output, MAX_DIFF_CHARS,
};

#[test]
fn retry_attempts_default_to_three() {
    assert_eq!(default_retry_attempts(), 3);
}

#[test]
fn durations_parse_in_seconds_minutes_and_hours() {
    assert_eq!(parse_duration("30s"), Ok(30));
    assert_eq!(parse_duration("5m"), Ok(300));
    assert_eq!(parse_duration("2h"), Ok(7200));
}

#[test]
fn durations_are_trimmed_and_lower_cased() {
    assert_eq!(parse_duration("  10S "), Ok(10));
    assert_eq!(parse_duration("\t3M\n"), Ok(180));
}

#[test]
fn empty_duration_is_an_error() {
    assert_eq!(parse_duration(""), Err("Duration string is empty".to_string()));
    assert_eq!(parse_duration("   "), Err("Duration string is empty".to_string()));
}

#[test]
fn duration_without_a_value_is_an_error() {
    assert_eq!(parse_duration("s"), Err("No duration value provided".to_string()));
}

#[test]
fn duration_with_a_bad_unit_names_it() {
    assert_eq!(
        parse_duration("10x"),
        Err("Invalid duration unit: 'x'. Use s, m, or h".to_string())
    );
    assert_eq!(
        parse_duration("10"),
        Err("Invalid duration unit: ''. Use s, m, or h".to_string())
    );
}

#[test]
fn duration_value_past_the_limit_is_an_error() {
    let huge = "99999999999999999999";
    assert_eq!(
        parse_duration(&format!("{}s", huge)),
        Err(format!("Invalid duration number: {}", huge))
    );
}

#[test]
fn versions_increment_their_last_component() {
    assert_eq!(increment_version("0.0.37"), Ok("0.0.38".to_string()));
    assert_eq!(increment_version("1.2.9"), Ok("1.2.10".to_string()));
    assert_eq!(increment_version("42"), Ok("43".to_string()));
    assert_eq!(increment_version(" 0.9 \n"), Ok("0.10".to_string()));
}

#[test]
fn malformed_versions_are_errors() {
    assert_eq!(increment_version("1.2.x"), Err("Invalid version number".to_string()));
    assert_eq!(increment_version("1.2."), Err("Invalid version number".to_string()));
    assert_eq!(increment_version(""), Err("Invalid version number".to_string()));
}

#[test]
fn safe_slice_length_respects_character_boundaries() {
    assert_eq!(get_safe_slice_length("abcdef", 3), 3);
    assert_eq!(get_safe_slice_length("abc", 10), 3);
    // "é" spans bytes 1..3; byte 2 splits it, so the cut retreats to 1.
    assert_eq!(get_safe_slice_length("a\u{e9}b", 2), 1);
    assert_eq!(get_safe_slice_length("a\u{e9}b", 3), 3);
}

#[test]
fn short_diffs_pass_through_unchanged() {
    let diff = "diff --git a/x b/x\n+hello\n";
    assert_eq!(process_git_diff_output(diff), diff);
}

#[test]
fn long_diffs_are_truncated_with_a_note() {
    let diff = "x".repeat(MAX_DIFF_CHARS + 1);
    let out = process_git_diff_output(&diff);
    let shown = MAX_DIFF_CHARS - 100;
    let expected = format!(
        "{}...\n\n[... total diff truncated due to length (first {} chars shown) ...]",
        "x".repeat(shown),
        shown
    );
    assert_eq!(out, expected);
}

#[test]
fn prompts_wrap_the_diff_between_the_fixed_instructions() {
    let prompt = aicommit::util::commit_prompt("THE-DIFF");
    assert!(prompt.starts_with("Generate ONLY the git commit message string"));
    assert!(prompt.contains("```diff\nTHE-DIFF\n```"));
    assert!(prompt.ends_with("Commit Message ONLY:"));
}

#[test]
fn long_whitespace_only_diffs_become_empty() {
    let diff = " ".repeat(MAX_DIFF_CHARS + 5);
    assert_eq!(process_git_diff_output(&diff), "");
}
