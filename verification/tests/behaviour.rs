use pgdog_parameter::order;
use pgdog_parameter::query;
use pgdog_parameter::text;
use pgdog_parameter::tracking;
use pgdog_parameter::{
    Column, Error, MergeResult, Parameter, ParameterMap, ParameterValue, Parameters, Query,
};
use std::collections::hash_map::DefaultHasher;
use std::collections::BTreeMap;
use std::hash::{Hash, Hasher};

fn text(s: &str) -> ParameterValue {
    ParameterValue::String(s.to_string())
}

fn texts(queries: &[Query]) -> Vec<String> {
    queries.iter().map(|q| q.query().to_string()).collect()
}

#[test]
fn names_are_lowercased_when_set_and_not_when_read() {
    let mut params = Parameters::default();
    assert_eq!(params.insert("TimeZone", "UTC"), None);
    assert_eq!(params.get("timezone"), Some(&text("UTC")));
    assert_eq!(params.get("TimeZone"), None);
    assert_eq!(params.insert("TIMEZONE", "CET"), Some(text("UTC")));
    assert_eq!(params.len(), 1);

    params.insert("ÄÖ", "x");
    assert_eq!(params.get("äö"), Some(&text("x")));

    params.insert_transaction("Role", "a", false);
    assert_eq!(params.get("role"), Some(&text("a")));
    params.reset("ROLE");
    assert_eq!(params.get("role"), None);
}

#[test]
fn put_takes_the_name_as_it_is() {
    let mut params = Parameters::default();
    assert_eq!(params.put("TimeZone".to_string(), text("UTC")), None);
    assert_eq!(params.get("TimeZone"), Some(&text("UTC")));
    assert_eq!(
        params.put_transaction("A".to_string(), ParameterValue::Integer(1), true),
        None
    );
    assert_eq!(
        params.put_transaction("A".to_string(), ParameterValue::Integer(2), true),
        Some(ParameterValue::Integer(1))
    );
    assert_eq!(
        params.put_transaction("A".to_string(), ParameterValue::Integer(3), false),
        None
    );
    assert_eq!(params.get("A"), Some(&ParameterValue::Integer(2)));
    params.reset_name("A".to_string());
    assert_eq!(params.get("A"), None);
}

#[test]
fn insert_takes_every_kind_of_value() {
    let mut params = Parameters::default();
    params.insert("a", "text");
    params.insert("b", String::from("owned"));
    params.insert("c", ParameterValue::Integer(7));
    assert_eq!(params.get("a"), Some(&text("text")));
    assert_eq!(params.get("b"), Some(&text("owned")));
    assert_eq!(params.get("c"), Some(&ParameterValue::Integer(7)));
}

#[test]
fn insert_transaction_returns_the_value_of_the_same_kind() {
    let mut params = Parameters::default();
    params.insert("a", "session");
    assert_eq!(params.insert_transaction("a", "one", false), None);
    assert_eq!(params.insert_transaction("a", "two", false), Some(text("one")));
    assert_eq!(params.insert_transaction("a", "three", true), None);
    assert_eq!(params.insert_transaction("a", "four", true), Some(text("three")));
}

#[test]
fn in_transaction_iter_goes_by_name() {
    let mut params = Parameters::default();
    params.insert("z", "session");
    params.insert_transaction("b", "2", false);
    params.insert_transaction("a", "1", false);
    params.insert_transaction("c", "3", true);
    let names: Vec<&str> = params.in_transaction_iter().map(|(k, _)| k.as_str()).collect();
    assert_eq!(names, vec!["a", "b"]);
}

#[test]
fn commit_reports_whether_anything_changed() {
    let mut params = Parameters::default();
    assert!(!params.commit());
    params.insert("a", "1");
    assert!(!params.commit());
    params.insert_transaction("b", "local", true);
    assert!(!params.commit());
    assert_eq!(params.get("b"), None);
    params.insert_transaction("a", "2", false);
    assert!(params.commit());
    assert_eq!(params.get("a"), Some(&text("2")));
    params.reset("a");
    assert!(params.commit());
    assert!(!params.commit());
    assert_eq!(params.get("a"), None);
}

#[test]
fn rollback_undoes_a_whole_transaction() {
    let mut params = Parameters::default();
    params.insert("a", "1");
    params.insert("b", "2");
    params.insert("database", "d");
    let before = params.clone();

    let mut other = Parameters::default();
    other.insert_transaction("c", "copied", false);
    other.insert_transaction("d", "copied", true);

    params.insert_transaction("a", "10", false);
    params.reset("a");
    params.insert_transaction("a", "11", true);
    params.copy_in_transaction(&other);
    params.reset_all();
    params.insert_transaction("b", "20", false);
    assert!(params != before);

    params.rollback();
    assert!(params == before);
    assert!(params.identical(&before));
}

#[test]
fn commit_keeps_what_the_steps_would_have_made() {
    let mut inside = Parameters::default();
    inside.insert("a", "1");
    inside.insert("b", "2");
    let mut outside = inside.clone();

    inside.reset("a");
    inside.insert_transaction("a", "3", false);
    inside.insert_transaction("c", "4", false);
    inside.insert_transaction("d", "5", true);
    inside.insert_transaction("b", "6", false);
    inside.reset("b");
    assert!(inside.commit());

    outside.insert("a", "3");
    outside.insert("c", "4");
    outside.remove("b");
    assert_eq!(inside.get("a"), outside.get("a"));
    assert_eq!(inside.get("b"), None);
    assert_eq!(inside.get("c"), outside.get("c"));
    assert_eq!(inside.get("d"), None);
    assert!(*inside == *outside);
}

#[test]
fn rollback_after_commit_changes_nothing() {
    let mut params = Parameters::default();
    params.insert("a", "1");
    params.insert_transaction("b", "2", false);
    params.reset("a");
    params.commit();
    let committed = params.clone();
    params.rollback();
    assert!(params == committed);
    params.rollback();
    assert!(params == committed);
    assert_eq!(params.get("a"), None);
    assert_eq!(params.get("b"), Some(&text("2")));
}

#[test]
fn a_later_reset_overrides_what_was_set_aside() {
    let mut params = Parameters::default();
    params.insert("a", "1");
    params.reset("a");
    params.insert("a", "2");
    params.reset("a");
    params.rollback();
    assert_eq!(params.get("a"), Some(&text("2")));
}

#[test]
fn rollback_puts_back_over_a_value_set_since() {
    let mut params = Parameters::default();
    params.insert("a", "1");
    params.reset("a");
    params.insert("a", "2");
    params.rollback();
    assert_eq!(params.get("a"), Some(&text("1")));
}

#[test]
fn reset_all_goes_by_the_names_as_they_stand() {
    let mut params = Parameters::from(vec![
        Parameter::from(("TimeZone", "UTC")),
        Parameter::from(("role", "a")),
        Parameter::from(("DATABASE", "x")),
        Parameter::from(("database", "d")),
        Parameter::from(("user", "u")),
    ]);
    params.reset_all();
    assert_eq!(params.get("TimeZone"), None);
    assert_eq!(params.get("role"), None);
    assert_eq!(params.get("DATABASE"), None);
    assert_eq!(params.get("database"), Some(&text("d")));
    assert_eq!(params.get("user"), Some(&text("u")));
    params.rollback();
    assert_eq!(params.get("TimeZone"), Some(&text("UTC")));
    assert_eq!(params.get("DATABASE"), Some(&text("x")));
}

#[test]
fn reset_names_resets_each() {
    let mut params = Parameters::default();
    params.insert("a", "1");
    params.insert("b", "2");
    params.insert("c", "3");
    params.reset_names(vec!["a".to_string(), "a".to_string(), "c".to_string()]);
    assert_eq!(params.get("a"), None);
    assert_eq!(params.get("b"), Some(&text("2")));
    assert_eq!(params.get("c"), None);
    params.rollback();
    assert_eq!(params.get("a"), Some(&text("1")));
}

#[test]
fn nothing_is_left_to_set_after_a_reset() {
    let mut params = Parameters::default();
    params.insert("application_name", "test_reset_app");
    params.insert("statement_timeout", "5000");
    assert_eq!(
        texts(&params.reset_queries()),
        vec![r#"RESET "application_name""#, r#"RESET "statement_timeout""#]
    );
    params.reset_all();
    assert!(params.set_queries(false).is_empty());
    params.insert("statement_timeout", "3000");
    assert_eq!(
        texts(&params.set_queries(false)),
        vec![r#"SET "statement_timeout" TO "3000""#]
    );
}

#[test]
fn only_tracked_parameters_count_for_identity() {
    let mut a = Parameters::default();
    a.insert("search_path", "public");
    let mut b = Parameters::default();
    b.insert("database", "d");
    b.insert("search_path", "public");
    assert!(a.identical(&b));
    assert!(a != b);
    assert!(b.tracked_params() == a);
    assert!(b.tracked_params().identical(&b));
    assert!(b.tracked_params().tracked_params() == b.tracked_params());

    let mut c = Parameters::default();
    c.insert("user", "u");
    c.insert("client_encoding", "utf8");
    assert!(c.identical(&Parameters::default()));
}

#[test]
fn order_of_insertion_does_not_count() {
    let mut a = Parameters::default();
    a.insert("x", "1");
    a.insert("y", "2");
    let mut b = Parameters::default();
    b.insert("y", "2");
    b.insert("x", "1");
    assert!(a.identical(&b));
    assert!(a == b);
}

#[test]
fn different_parameters_are_told_apart() {
    let values = vec![
        text("1"),
        text("a, b"),
        text(""),
        ParameterValue::Integer(1),
        ParameterValue::Integer(-1),
        ParameterValue::Tuple(vec![]),
        ParameterValue::Tuple(vec!["1".to_string()]),
        ParameterValue::Tuple(vec!["a, b".to_string()]),
        ParameterValue::Tuple(vec!["a".to_string(), "b".to_string()]),
    ];
    for (i, v) in values.iter().enumerate() {
        for (j, w) in values.iter().enumerate() {
            let mut a = Parameters::default();
            a.insert("name", v.clone());
            let mut b = Parameters::default();
            b.insert("name", w.clone());
            assert_eq!(a.identical(&b), i == j);
            assert_eq!(v == w, i == j);
        }
    }
    let mut a = Parameters::default();
    a.insert("ab", "c");
    let mut b = Parameters::default();
    b.insert("a", "bc");
    assert!(!a.identical(&b));
}

#[test]
fn fingerprint_is_the_standard_hash_on_common_machines() {
    let values = vec![
        ("a", text("x")),
        ("b", ParameterValue::Tuple(vec!["$user".to_string(), "public".to_string()])),
        ("c", ParameterValue::Integer(-5)),
        ("database", text("ignored")),
    ];
    let mut map = ParameterMap::new();
    assert_eq!(Parameters::compute_hash(&map), 0);
    let mut hasher = DefaultHasher::new();
    for (name, value) in values.iter() {
        map.insert(name.to_string(), value.clone());
        if *name != "database" {
            name.to_string().hash(&mut hasher);
            value.hash(&mut hasher);
        }
    }
    if std::mem::size_of::<usize>() == 8 && u16::from_ne_bytes([1, 0]) == 1 {
        assert_eq!(Parameters::compute_hash(&map), hasher.finish());
    }
}

#[test]
fn merge_takes_the_other_side_and_the_fingerprint_anew() {
    let mut a = Parameters::default();
    a.insert("x", "1");
    a.insert("y", "2");
    let before = a.clone();
    let mut b = Parameters::default();
    b.insert("y", "3");
    b.insert("z", "4");
    a.merge(b);
    assert_eq!(a.get("x"), Some(&text("1")));
    assert_eq!(a.get("y"), Some(&text("3")));
    assert_eq!(a.get("z"), Some(&text("4")));
    assert!(!a.identical(&before));
    let mut same = Parameters::default();
    same.insert("z", "4");
    same.insert("y", "3");
    same.insert("x", "1");
    assert!(a.identical(&same));
}

#[test]
fn merge_into_nothing_is_identical_to_the_other_side() {
    let mut a = Parameters::default();
    let mut b = Parameters::default();
    b.insert("application_name", "x");
    assert!(!a.identical(&b));
    a.merge(b.clone());
    assert!(a.identical(&b));
}

#[test]
fn merge_leaves_what_was_set_aside() {
    let mut a = Parameters::default();
    a.insert("x", "1");
    a.reset("x");
    let mut b = Parameters::default();
    b.insert("y", "2");
    b.reset("y");
    a.merge(b);
    a.rollback();
    assert_eq!(a.get("x"), Some(&text("1")));
    assert_eq!(a.get("y"), None);
}

#[test]
fn copy_in_transaction_leaves_the_session_alone() {
    let mut source = Parameters::default();
    source.insert("a", "session");
    source.insert_transaction("b", "transaction", false);
    let mut dest = Parameters::default();
    dest.insert_transaction("b", "old", false);
    dest.copy_in_transaction(&source);
    assert_eq!(dest.get("a"), None);
    assert_eq!(dest.get("b"), Some(&text("transaction")));
    assert_eq!(source.get("b"), Some(&text("transaction")));
}

#[test]
fn clear_leaves_the_transaction() {
    let mut params = Parameters::default();
    params.insert("a", "1");
    params.insert_transaction("b", "2", false);
    params.clear();
    assert_eq!(params.get("a"), None);
    assert_eq!(params.get("b"), Some(&text("2")));
}

#[test]
fn required_and_default_texts() {
    let mut params = Parameters::default();
    params.insert("user", "me");
    params.insert("limit", ParameterValue::Integer(3));
    assert!(matches!(params.get_required("user"), Ok("me")));
    assert!(
        matches!(params.get_required("limit"), Err(Error::MissingParameter(n)) if n == "limit")
    );
    assert!(
        matches!(params.get_required("database"), Err(Error::MissingParameter(n)) if n == "database")
    );
    assert_eq!(params.get_default("user", "postgres"), "me");
    assert_eq!(params.get_default("limit", "none"), "none");
    assert_eq!(params.get_default("database", "db"), "db");
}

#[test]
fn search_path_is_a_parameter() {
    let mut params = Parameters::default();
    assert_eq!(params.search_path(), None);
    params.insert("search_path", "public");
    assert_eq!(params.search_path(), Some(&text("public")));
    params.insert_transaction("search_path", "other", true);
    assert_eq!(params.search_path(), Some(&text("other")));
}

#[test]
fn set_queries_go_by_name_and_scope() {
    let mut params = Parameters::default();
    params.insert("b", "2");
    params.insert("a", ParameterValue::Integer(-1));
    params.insert_transaction("d", "4", false);
    params.insert_transaction("c", ParameterValue::Tuple(vec!["x".into(), "".into()]), true);
    assert_eq!(
        texts(&params.set_queries(false)),
        vec![r#"SET "a" TO -1"#, r#"SET "b" TO "2""#]
    );
    assert_eq!(
        texts(&params.set_queries(true)),
        vec![r#"SET "d" TO "4""#, r#"SET LOCAL "c" TO "x", ''"#]
    );
}

#[test]
fn diff_queries_reset_before_they_set() {
    let mut current = Parameters::default();
    current.insert("a", "1");
    current.insert("b", "2");
    current.insert("d", "4");
    let mut wanted = Parameters::default();
    wanted.insert("b", "20");
    wanted.insert("c", "3");
    wanted.insert("d", "4");
    assert_eq!(
        texts(&wanted.diff_queries(&current)),
        vec![r#"RESET "a""#, r#"SET "b" TO "20""#, r#"SET "c" TO "3""#]
    );
}

#[test]
fn diff_queries_turn_one_state_into_the_other() {
    let mut current = Parameters::default();
    current.insert("a", "1");
    current.insert("b", "2");
    let mut wanted = Parameters::default();
    wanted.insert("b", "3");
    wanted.insert("c", "4");
    let mut server: BTreeMap<String, String> = BTreeMap::new();
    for q in current.set_queries(false) {
        apply(&mut server, q.query());
    }
    for q in wanted.diff_queries(&current) {
        apply(&mut server, q.query());
    }
    let mut fresh: BTreeMap<String, String> = BTreeMap::new();
    for q in wanted.set_queries(false) {
        apply(&mut fresh, q.query());
    }
    assert_eq!(server, fresh);
}

fn apply(server: &mut BTreeMap<String, String>, statement: &str) {
    let parts: Vec<&str> = statement.splitn(4, ' ').collect();
    if parts[0] == "RESET" {
        server.remove(parts[1]);
    } else {
        server.insert(parts[1].to_string(), parts[3].to_string());
    }
}

#[test]
fn values_stay_inside_their_quotes() {
    for quote in ["'", "\""] {
        let param = "my_app_nameQUOTE;CREATE/**/TABLE/**/poc_table_two/**/(dummy_column/**/INTEGER);SET/**/application_name/**/TO/**/QUOTEyour_app_name".replace("QUOTE", quote);
        let mut params = Parameters::default();
        params.insert("application_name", param.clone());
        let query = params.set_queries(false).first().unwrap().clone();
        assert!(query.query().contains(&param));
    }
    assert_eq!(text::quote("it's"), r#""it's""#);
    assert_eq!(text::quote(r#"it's "so""#), r#"'it''s "so"'"#);
    assert_eq!(text::quote("''\"''"), "'''''\"'''''");
}

#[test]
fn double_quotes_around_a_value_are_taken_off() {
    assert_eq!(text::quote("\""), "''");
    assert_eq!(text::quote("\"\""), "''");
    assert_eq!(text::quote("\"\"\""), "'\"'");
    assert_eq!(text::quote("\"a"), "'\"a'");
    assert_eq!(text::quote("\"é\""), "\"é\"");
    assert_eq!(text::quote(&text::quote("plain")), text::quote("plain"));
}

#[test]
fn integers_are_written_in_decimal() {
    assert_eq!(ParameterValue::Integer(0).to_string(), "0");
    assert_eq!(ParameterValue::Integer(10).to_string(), "10");
    assert_eq!(ParameterValue::Integer(-7).to_string(), "-7");
    assert_eq!(ParameterValue::Integer(i32::MAX).to_string(), "2147483647");
    assert_eq!(ParameterValue::Integer(i32::MIN).to_string(), "-2147483648");
}

#[test]
fn values_on_the_wire_end_with_zero() {
    assert_eq!(&ParameterValue::Integer(-12).to_bytes()[..], b"-12\0");
    assert_eq!(&text("").to_bytes()[..], b"\0");
    assert_eq!(&text("é").to_bytes()[..], &[0xc3, 0xa9, 0]);
    assert_eq!(&ParameterValue::Tuple(vec![]).to_bytes()[..], b"\0");
    assert_eq!(&ParameterValue::Tuple(vec!["one".into()]).to_bytes()[..], b"one\0");
    assert!(ParameterValue::Tuple(vec!["a".into(), "b".into()]).wire_fits());
    assert!(ParameterValue::Integer(1).wire_fits());
    assert!(text("x").wire_fits());
}

#[test]
fn columns_are_handed_over_by_kind() {
    assert!(matches!(text("a").to_data_row_column(), Column::Text("a")));
    assert!(matches!(
        ParameterValue::Integer(5).to_data_row_column(),
        Column::Integer(5)
    ));
    match ParameterValue::Tuple(vec!["a".into(), "b".into()]).to_data_row_column() {
        Column::Raw(bytes) => assert_eq!(&bytes[..], b"a, b\0"),
        _ => panic!("a list is handed over as bytes"),
    }
}

#[test]
fn memory_is_measured_by_kind() {
    let of_text = |s: &String| s.len();
    let of_list = |l: &Vec<String>| 100 + l.len();
    let of_number = |_: &i32| 4;
    assert_eq!(text("abc").memory_usage(of_text, of_list, of_number), 3);
    assert_eq!(
        ParameterValue::Tuple(vec!["a".into()]).memory_usage(of_text, of_list, of_number),
        101
    );
    assert_eq!(
        ParameterValue::Integer(9).memory_usage(of_text, of_list, of_number),
        4
    );
    let mut params = Parameters::default();
    params.insert("a", "b");
    assert_eq!(params.memory_usage(|m: &ParameterMap| m.len() * 10, |_: &u64| 8), 18);
}

#[test]
fn as_str_is_for_text_only() {
    assert_eq!(text("a").as_str(), Some("a"));
    assert_eq!(ParameterValue::Integer(1).as_str(), None);
    assert_eq!(ParameterValue::Tuple(vec!["a".into()]).as_str(), None);
}

#[test]
fn parameters_are_shown_by_name() {
    let mut params = Parameters::default();
    assert_eq!(params.to_string(), "");
    params.insert("b", "2");
    params.insert("a", ParameterValue::Integer(1));
    params.insert_transaction("c", "3", false);
    assert_eq!(params.to_string(), r#"a=1, b="2""#);
}

#[test]
fn lists_of_parameters_round_trip() {
    let list = vec![
        Parameter::from(("b", "1")),
        Parameter::from(("A", "2")),
        Parameter::from((String::from("b"), String::from("3"))),
    ];
    let params = Parameters::from(list);
    assert_eq!(params.get("b"), Some(&text("3")));
    assert_eq!(params.get("A"), Some(&text("2")));
    let back: Vec<Parameter> = Vec::from(&params);
    assert_eq!(
        back,
        vec![Parameter::from(("A", "2")), Parameter::from(("b", "3"))]
    );
    assert!(Parameters::from(back) == params);
}

#[test]
fn the_map_of_the_session_can_be_reached() {
    let mut params = Parameters::default();
    params.insert("a", "1");
    let fingerprint = params.clone();
    assert_eq!(params.len(), 1);
    assert!(!params.is_empty());
    assert!(params.contains_key("a"));
    assert_eq!(params.remove("a"), Some(text("1")));
    assert!(params.is_empty());
    assert!(params.identical(&fingerprint));
}

#[test]
fn the_map_keeps_its_order() {
    let mut map = ParameterMap::new();
    for name in ["m", "a", "z", "b", "é", "Z", "", "ab"] {
        assert_eq!(map.insert(name.to_string(), text(name)), None);
    }
    let names: Vec<&str> = map.iter().map(|(k, _)| k.as_str()).collect();
    assert_eq!(names, vec!["", "Z", "a", "ab", "b", "m", "z", "é"]);
    assert_eq!(map.insert("b".to_string(), text("new")), Some(text("b")));
    assert_eq!(map.get("b"), Some(&text("new")));
    assert_eq!(map.remove("a"), Some(text("a")));
    assert_eq!(map.remove("a"), None);
    assert_eq!(map.len(), 7);
    let mut other = map.clone();
    assert!(other == map);
    other.insert("c".to_string(), text("c"));
    assert!(other != map);
    map.extend_from(&other);
    assert!(other == map);
    map.clear();
    assert!(map.is_empty());
    map.extend(other);
    assert_eq!(map.len(), 8);
    assert_eq!(map.entries().len(), 8);
}

#[test]
fn names_are_placed_by_their_bytes() {
    assert_eq!(order::place("a", "b"), order::Place::Before);
    assert_eq!(order::place("b", "a"), order::Place::After);
    assert_eq!(order::place("a", "a"), order::Place::Same);
    assert_eq!(order::place("a", "ab"), order::Place::Before);
    assert_eq!(order::place("ab", "a"), order::Place::After);
    assert_eq!(order::place("z", "é"), order::Place::Before);
}

#[test]
fn untracked_names_are_known() {
    for name in [
        "database",
        "user",
        "client_encoding",
        "replication",
        "is_superuser",
        "server_version",
        "server_encoding",
        "integer_datetimes",
        "session_authorization",
        "in_hot_standby",
        "pgdog.role",
        "pgdog.shard",
        "pgdog.sharding_key",
    ] {
        assert!(tracking::is_untracked(name));
    }
    assert!(!tracking::is_untracked("Database"));
    assert!(!tracking::is_untracked("search_path"));
    assert!(!tracking::is_untracked(""));
}

#[test]
fn merge_results_can_be_cloned() {
    let result = MergeResult {
        queries: vec![query::reset_query("a")],
        changed_params: 1,
    };
    let copy = result.clone();
    assert_eq!(texts(&copy.queries), vec![r#"RESET "a""#]);
    assert_eq!(copy.changed_params, 1);
    assert_eq!(Query::new("SHOW a".to_string()).query(), "SHOW a");
}
