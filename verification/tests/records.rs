use spanlog::process::process_line_at;
use spanlog::track::SpanTable;

fn rfc3339(t: i64) -> String {
    chrono::DateTime::<chrono::Utc>::from_timestamp_nanos(t)
        .to_rfc3339_opts(chrono::SecondsFormat::Nanos, true)
}

fn run_line(line: &str, stream: &str, table: &mut SpanTable, now: i64) -> Option<String> {
    assert!(now >= 0);
    process_line_at(line, stream, table, now)
}

#[test]
fn plain_text_becomes_fallback_record() {
    let mut table = SpanTable::new();
    let out = run_line("hello world", "stdout", &mut table, 0).expect("one record");
    let expected = format!(
        "{}\"timestamp\":\"{}\",\"level\":\"stdout\",\"message\":\"hello world\"{}",
        "{",
        rfc3339(0),
        "}"
    );
    assert_eq!(out, expected);
}

#[test]
fn fallback_message_is_verbatim_and_level_is_stream() {
    let mut table = SpanTable::new();
    let line = "not { json at all";
    let out = run_line(line, "stderr", &mut table, 1_000).expect("one record");
    let v: serde_json::Value = serde_json::from_str(&out).expect("valid json out");
    assert_eq!(v["message"].as_str(), Some(line));
    assert_eq!(v["level"].as_str(), Some("stderr"));
    assert_eq!(v["timestamp"].as_str(), Some(rfc3339(1_000).as_str()));
}

#[test]
fn non_object_json_becomes_fallback_record() {
    let mut table = SpanTable::new();
    let out = run_line("[1,2,3]", "stdout", &mut table, 5).expect("one record");
    let v: serde_json::Value = serde_json::from_str(&out).expect("valid json out");
    assert_eq!(v["message"].as_str(), Some("[1,2,3]"));
    assert_eq!(v["level"].as_str(), Some("stdout"));
}

#[test]
fn escaping_round_trips_through_the_emitted_record() {
    let mut table = SpanTable::new();
    let line = "a \"quoted\"\tline\nwith \\ and control \u{1}";
    let out = run_line(line, "stdout", &mut table, 0).expect("one record");
    let v: serde_json::Value = serde_json::from_str(&out).expect("valid json out");
    assert_eq!(v["message"].as_str(), Some(line));
}

#[test]
fn object_without_timestamp_gets_processing_instant() {
    let mut table = SpanTable::new();
    let now: i64 = 1_700_000_000_000_000_000;
    let out = run_line("{\"a\":1,\"msg\":\"hi\"}", "stdout", &mut table, now).expect("one record");
    let v: serde_json::Value = serde_json::from_str(&out).expect("valid json out");
    assert_eq!(v["timestamp"].as_str(), Some(rfc3339(now).as_str()));
    assert_eq!(v["a"].as_i64(), Some(1));
    assert_eq!(v["msg"].as_str(), Some("hi"));
    assert_eq!(v["level"].as_str(), Some("stdout"));
}

#[test]
fn object_with_own_timestamp_keeps_it() {
    let mut table = SpanTable::new();
    let out = run_line("{\"timestamp\":\"then\",\"x\":true}", "stdout", &mut table, 7)
        .expect("one record");
    let v: serde_json::Value = serde_json::from_str(&out).expect("valid json out");
    assert_eq!(v["timestamp"].as_str(), Some("then"));
    assert_eq!(v["x"].as_bool(), Some(true));
}

#[test]
fn object_with_own_level_keeps_it() {
    let mut table = SpanTable::new();
    let out = run_line("{\"level\":\"warn\"}", "stderr", &mut table, 7).expect("one record");
    let v: serde_json::Value = serde_json::from_str(&out).expect("valid json out");
    assert_eq!(v["level"].as_str(), Some("warn"));
}

#[test]
fn numbers_pass_through_unchanged() {
    let mut table = SpanTable::new();
    let out = run_line(
        "{\"i\":-42,\"big\":18446744073709551615,\"f\":1.5}",
        "stdout",
        &mut table,
        0,
    )
    .expect("one record");
    let v: serde_json::Value = serde_json::from_str(&out).expect("valid json out");
    assert_eq!(v["i"].as_i64(), Some(-42));
    assert_eq!(v["big"].as_u64(), Some(18446744073709551615));
    assert_eq!(v["f"].as_f64(), Some(1.5));
}

#[test]
fn nested_values_pass_through_unchanged() {
    let mut table = SpanTable::new();
    let line = "{\"deep\":{\"list\":[null,false,\"s\"],\"n\":3}}";
    let out = run_line(line, "stdout", &mut table, 0).expect("one record");
    let v: serde_json::Value = serde_json::from_str(&out).expect("valid json out");
    assert_eq!(v["deep"]["list"][0], serde_json::Value::Null);
    assert_eq!(v["deep"]["list"][1].as_bool(), Some(false));
    assert_eq!(v["deep"]["list"][2].as_str(), Some("s"));
    assert_eq!(v["deep"]["n"].as_i64(), Some(3));
}

#[test]
fn empty_line_is_not_json_and_falls_back() {
    let mut table = SpanTable::new();
    let out = run_line("", "stdout", &mut table, 0).expect("one record");
    let v: serde_json::Value = serde_json::from_str(&out).expect("valid json out");
    assert_eq!(v["message"].as_str(), Some(""));
}

#[test]
fn clocked_processing_emits_a_record_too() {
    let mut table = SpanTable::new();
    let out = spanlog::process::process_line("just text", "stdout", &mut table)
        .expect("one record");
    let v: serde_json::Value = serde_json::from_str(&out).expect("valid json out");
    assert_eq!(v["message"].as_str(), Some("just text"));
    assert_eq!(v["level"].as_str(), Some("stdout"));
    assert!(v["timestamp"].as_str().is_some());
}
