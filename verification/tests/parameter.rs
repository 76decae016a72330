use pgdog_parameter::parameters::Parameters;
use pgdog_parameter::value::ParameterValue;

#[test]
fn test_identical() {
    let mut me = Parameters::default();
    me.insert("application_name", "something");
    me.insert("TimeZone", "UTC");
    me.insert(
        "search_path",
        ParameterValue::Tuple(vec!["$user".into(), "public".into()]),
    );

    let mut other = Parameters::default();
    other.insert("TimeZone", "UTC");

    let same = me.identical(&other);
    assert!(!same);

    assert!(Parameters::default().identical(&Parameters::default()));
}

#[test]
fn test_insert_transaction_non_local() {
    let mut params = Parameters::default();
    params.insert("application_name", "test");
    params.insert_transaction("search_path", "public", false);

    // Transaction param should be accessible via get
    assert_eq!(
        params.get("search_path"),
        Some(&ParameterValue::String("public".into()))
    );

    // Regular param should still be accessible
    assert_eq!(
        params.get("application_name"),
        Some(&ParameterValue::String("test".into()))
    );
}

#[test]
fn test_insert_transaction_local() {
    let mut params = Parameters::default();
    params.insert_transaction("search_path", "public", true);

    // Local param should be accessible via get
    assert_eq!(
        params.get("search_path"),
        Some(&ParameterValue::String("public".into()))
    );
}

#[test]
fn test_get_priority_local_over_transaction() {
    let mut params = Parameters::default();
    params.insert("search_path", "base");
    params.insert_transaction("search_path", "transaction", false);
    params.insert_transaction("search_path", "local", true);

    // Local should take priority
    assert_eq!(
        params.get("search_path"),
        Some(&ParameterValue::String("local".into()))
    );
}

#[test]
fn test_get_priority_transaction_over_regular() {
    let mut params = Parameters::default();
    params.insert("search_path", "base");
    params.insert_transaction("search_path", "transaction", false);

    // Transaction should take priority over regular
    assert_eq!(
        params.get("search_path"),
        Some(&ParameterValue::String("transaction".into()))
    );
}

#[test]
fn test_commit_clears_local_params() {
    let mut params = Parameters::default();
    params.insert_transaction("search_path", "transaction", false);
    params.insert_transaction("timezone", "local_tz", true);

    assert!(params.commit());

    // Transaction param should be committed to regular params
    assert_eq!(
        params.get("search_path"),
        Some(&ParameterValue::String("transaction".into()))
    );

    // Local param should be cleared (not committed)
    assert_eq!(params.get("timezone"), None);
}

#[test]
fn test_rollback_clears_both_transaction_and_local() {
    let mut params = Parameters::default();
    params.insert("base", "value");
    params.insert_transaction("search_path", "transaction", false);
    params.insert_transaction("timezone", "local_tz", true);

    params.rollback();

    // Both transaction and local params should be cleared
    assert_eq!(params.get("search_path"), None);
    assert_eq!(params.get("timezone"), None);

    // Base param should remain
    assert_eq!(
        params.get("base"),
        Some(&ParameterValue::String("value".into()))
    );
}

#[test]
fn test_set_queries_transaction_only_includes_set_local() {
    let mut params = Parameters::default();
    params.insert_transaction("search_path", "public", false);
    params.insert_transaction("timezone", "UTC", true);

    let queries = params.set_queries(true);

    assert_eq!(queries.len(), 2);

    // Check that we have both SET and SET LOCAL queries
    let query_strings: Vec<String> = queries.iter().map(|q| q.query().to_string()).collect();

    assert!(
        query_strings
            .iter()
            .any(|q| q.contains("SET \"search_path\"") && !q.contains("SET LOCAL"))
    );
    assert!(query_strings.iter().any(|q| q.contains("SET LOCAL")));
}

#[test]
fn test_copy_in_transaction() {
    let mut source = Parameters::default();
    source.insert_transaction("search_path", "public", false);
    source.insert_transaction("timezone", "UTC", true);

    let mut dest = Parameters::default();
    dest.copy_in_transaction(&source);

    // Both transaction and local params should be copied
    assert_eq!(
        dest.get("search_path"),
        Some(&ParameterValue::String("public".into()))
    );
    assert_eq!(
        dest.get("timezone"),
        Some(&ParameterValue::String("UTC".into()))
    );
}

#[test]
fn test_parameter_value_to_bytes_string() {
    let value = ParameterValue::String("test".into());
    let bytes = value.to_bytes();

    assert_eq!(&bytes[..], b"test\0");
}

#[test]
fn test_parameter_value_to_bytes_tuple() {
    let value = ParameterValue::Tuple(vec!["a".into(), "b".into()]);
    let bytes = value.to_bytes();

    assert_eq!(&bytes[..], b"a, b\0");
}

#[test]
fn test_parameter_value_display_string() {
    let value = ParameterValue::String("test".into());
    assert_eq!(value.to_string(), r#""test""#);
}

#[test]
fn test_parameter_value_display_tuple() {
    let value = ParameterValue::Tuple(vec!["$user".into(), "public".into()]);
    assert_eq!(value.to_string(), r#""$user", "public""#);
}

#[test]
fn test_parameter_value_display_already_quoted() {
    // If value is already quoted, it should strip quotes and re-quote
    let value = ParameterValue::String(r#""already quoted""#.into());
    assert_eq!(value.to_string(), r#""already quoted""#);
}

#[test]
fn test_merge_includes_local_params() {
    let mut params1 = Parameters::default();
    params1.insert("base", "value");

    let mut params2 = Parameters::default();
    params2.insert_transaction("search_path", "public", false);
    params2.insert_transaction("timezone", "UTC", true);

    params1.merge(params2);

    // All params should be merged
    assert_eq!(
        params1.get("base"),
        Some(&ParameterValue::String("value".into()))
    );
    assert_eq!(
        params1.get("search_path"),
        Some(&ParameterValue::String("public".into()))
    );
    assert_eq!(
        params1.get("timezone"),
        Some(&ParameterValue::String("UTC".into()))
    );
}

#[test]
fn test_json_parameter_value() {
    assert_eq!(
        ParameterValue::String(r#"{"sampling_state":"1","span_id":"2a9abb846bb02bfe","trace_id":"6b9e798174650d2f6e8262ec175f241f"}"#.into()).to_string(),
        r#"'{"sampling_state":"1","span_id":"2a9abb846bb02bfe","trace_id":"6b9e798174650d2f6e8262ec175f241f"}'"#
    );
}

#[test]
fn test_empty_parameter_value() {
    assert_eq!(ParameterValue::String("".into()).to_string(), "''");
}

#[test]
fn test_clear_resets_hash() {
    let mut params = Parameters::default();
    params.insert("application_name", "test_app");
    params.insert("TimeZone", "UTC");

    // Verify params are not identical to empty (hash differs)
    assert!(!params.identical(&Parameters::default()));

    params.clear();

    // After clear, hash should be reset to match empty Parameters
    assert!(params.identical(&Parameters::default()));
}

#[test]
fn test_reset_removes_param() {
    let mut params = Parameters::default();
    params.insert("search_path", "public");
    params.insert("timezone", "UTC");

    params.reset("search_path");

    // search_path should be removed
    assert_eq!(params.get("search_path"), None);
    // timezone should remain
    assert_eq!(
        params.get("timezone"),
        Some(&ParameterValue::String("UTC".into()))
    );
}

#[test]
fn test_reset_nonexistent_param() {
    let mut params = Parameters::default();
    params.insert("timezone", "UTC");

    // Should not panic, just no-op
    params.reset("nonexistent");

    // timezone should remain
    assert_eq!(
        params.get("timezone"),
        Some(&ParameterValue::String("UTC".into()))
    );
}

#[test]
fn test_reset_rollback_restores_param() {
    let mut params = Parameters::default();
    params.insert("search_path", "public");

    params.reset("search_path");
    assert_eq!(params.get("search_path"), None);

    params.rollback();

    // After rollback, param should be restored
    assert_eq!(
        params.get("search_path"),
        Some(&ParameterValue::String("public".into()))
    );
}

#[test]
fn test_reset_commit_makes_permanent() {
    let mut params = Parameters::default();
    params.insert("search_path", "public");

    params.reset("search_path");
    assert_eq!(params.get("search_path"), None);

    params.commit();

    // After commit, reset is permanent - rollback doesn't restore
    params.rollback();
    assert_eq!(params.get("search_path"), None);
}

#[test]
fn test_reset_clears_transaction_params() {
    let mut params = Parameters::default();
    params.insert("search_path", "base");
    params.insert_transaction("search_path", "transaction", false);

    // Before reset, transaction value takes priority
    assert_eq!(
        params.get("search_path"),
        Some(&ParameterValue::String("transaction".into()))
    );

    params.reset("search_path");

    // After reset, both base and transaction values are cleared
    assert_eq!(params.get("search_path"), None);
}

#[test]
fn test_reset_clears_transaction_local_params() {
    let mut params = Parameters::default();
    params.insert("search_path", "base");
    params.insert_transaction("search_path", "local", true);

    // Before reset, local value takes priority
    assert_eq!(
        params.get("search_path"),
        Some(&ParameterValue::String("local".into()))
    );

    params.reset("search_path");

    // After reset, local params should also be cleared
    assert_eq!(params.get("search_path"), None);
}

#[test]
fn test_diff_queries_only_touches_changes() {
    // Server currently has these params set.
    let mut current = Parameters::default();
    current.insert("application_name", "bin/rails");
    current.insert("timezone", "UTC");
    current.insert("statement_timeout", "14s");

    // Desired client state differs only in application_name.
    let mut desired = Parameters::default();
    desired.insert("application_name", "sidekiq");
    desired.insert("timezone", "UTC");
    desired.insert("statement_timeout", "14s");

    let queries: Vec<String> = desired
        .diff_queries(&current)
        .iter()
        .map(|q| q.query().to_string())
        .collect();

    // Only the one differing param is synced; identical params are skipped.
    assert_eq!(queries, vec![r#"SET "application_name" TO "sidekiq""#]);

    // Identical states produce no queries at all.
    assert!(desired.diff_queries(&desired).is_empty());

    // A param on the server but no longer wanted is RESET.
    let mut dropped = Parameters::default();
    dropped.insert("timezone", "UTC");
    dropped.insert("statement_timeout", "14s");
    let reset: Vec<String> = dropped
        .diff_queries(&current)
        .iter()
        .map(|q| q.query().to_string())
        .collect();
    assert!(reset.contains(&r#"RESET "application_name""#.to_string()));
}

#[test]
fn test_reset_all_basic() {
    let mut params = Parameters::default();
    params.insert("search_path", "public");
    params.insert("timezone", "UTC");
    params.insert("application_name", "myapp");

    params.reset_all();

    // All tracked params should be removed
    assert_eq!(params.get("search_path"), None);
    assert_eq!(params.get("timezone"), None);
    assert_eq!(params.get("application_name"), None);
}

#[test]
fn test_reset_all_preserves_untracked() {
    let mut params = Parameters::default();
    params.insert("search_path", "public");
    // "database" is in UNTRACKED_PARAMS
    params.insert("database", "mydb");

    params.reset_all();

    // Tracked params should be removed
    assert_eq!(params.get("search_path"), None);
    // Untracked params should remain
    assert_eq!(
        params.get("database"),
        Some(&ParameterValue::String("mydb".into()))
    );
}

#[test]
fn test_reset_all_rollback_restores_all() {
    let mut params = Parameters::default();
    params.insert("search_path", "public");
    params.insert("timezone", "UTC");

    params.reset_all();
    assert_eq!(params.get("search_path"), None);
    assert_eq!(params.get("timezone"), None);

    params.rollback();

    // After rollback, all params should be restored
    assert_eq!(
        params.get("search_path"),
        Some(&ParameterValue::String("public".into()))
    );
    assert_eq!(
        params.get("timezone"),
        Some(&ParameterValue::String("UTC".into()))
    );
}

#[test]
fn test_reset_all_commit_makes_permanent() {
    let mut params = Parameters::default();
    params.insert("search_path", "public");
    params.insert("timezone", "UTC");

    params.reset_all();
    params.commit();

    // After commit, rollback should not restore
    params.rollback();
    assert_eq!(params.get("search_path"), None);
    assert_eq!(params.get("timezone"), None);
}

#[test]
fn test_reset_all_clears_transaction_params() {
    let mut params = Parameters::default();
    params.insert("search_path", "base");
    params.insert_transaction("search_path", "transaction", false);
    params.insert_transaction("timezone", "local_tz", true);

    params.reset_all();

    // All scopes should be cleared for tracked params
    assert_eq!(params.get("search_path"), None);
    assert_eq!(params.get("timezone"), None);
}
