use spanlog::process::process_line_at;
use spanlog::track::SpanTable;

fn rfc3339(t: i64) -> String {
    chrono::DateTime::<chrono::Utc>::from_timestamp_nanos(t)
        .to_rfc3339_opts(chrono::SecondsFormat::Nanos, true)
}

fn start_line(id: &str) -> String {
    format!(
        "{}\"event\":\"start\",\"span\":{}\"spanID\":\"{}\",\"op\":\"x\"{}{}",
        "{", "{", id, "}", "}"
    )
}

fn end_line(id: &str) -> String {
    format!(
        "{}\"event\":\"end\",\"span\":{}\"spanID\":\"{}\",\"op\":\"x\"{}{}",
        "{", "{", id, "}", "}"
    )
}

#[test]
fn round_trip_correlation_emits_one_record() {
    let mut table = SpanTable::new();
    let t1: i64 = 1_000;
    let t2: i64 = 5_500;
    let first = process_line_at(&start_line("A"), "stdout", &mut table, t1);
    assert!(first.is_none());
    assert_eq!(table.open_count(), 1);
    let second = process_line_at(&end_line("A"), "stdout", &mut table, t2).expect("one record");
    assert_eq!(table.open_count(), 0);
    let v: serde_json::Value = serde_json::from_str(&second).expect("valid json out");
    assert_eq!(v["op"].as_str(), Some("x"));
    assert_eq!(v["serviceName"].as_str(), Some("test-service"));
    assert_eq!(v["spanID"].as_str(), Some("A"));
    let duration = v["duration"].as_i64().expect("integer duration");
    assert!(duration >= 0);
    assert_eq!(duration, t2 - t1);
    assert_eq!(v["timestamp"].as_str(), Some(rfc3339(t1).as_str()));
}

#[test]
fn unmatched_end_emits_nothing_and_leaves_table() {
    let mut table = SpanTable::new();
    let before = table.open_count();
    let out = process_line_at(&end_line("ghost"), "stdout", &mut table, 9);
    assert!(out.is_none());
    assert_eq!(table.open_count(), before);
}

#[test]
fn second_start_wins() {
    let mut table = SpanTable::new();
    let t1: i64 = 100;
    let t2: i64 = 700;
    let t3: i64 = 1_000;
    assert!(process_line_at(&start_line("B"), "stdout", &mut table, t1).is_none());
    assert!(process_line_at(&start_line("B"), "stderr", &mut table, t2).is_none());
    assert_eq!(table.open_count(), 1);
    assert_eq!(table.get(&String::from("B")), Some(t2));
    let out = process_line_at(&end_line("B"), "stdout", &mut table, t3).expect("one record");
    let v: serde_json::Value = serde_json::from_str(&out).expect("valid json out");
    assert_eq!(v["duration"].as_i64(), Some(t3 - t2));
    assert_eq!(v["timestamp"].as_str(), Some(rfc3339(t2).as_str()));
}

#[test]
fn interleaved_disjoint_spans_all_correlate() {
    let mut table = SpanTable::new();
    let n: usize = 16;
    let mut now: i64 = 0;
    for i in 0..n {
        let stream = if i % 2 == 0 { "stdout" } else { "stderr" };
        let id = format!("span-{}", i);
        assert!(process_line_at(&start_line(&id), stream, &mut table, now).is_none());
        now += 10;
    }
    assert_eq!(table.open_count(), n);
    let mut emitted: usize = 0;
    for i in 0..n {
        // the end arrives on the opposite stream from the start
        let stream = if i % 2 == 0 { "stderr" } else { "stdout" };
        let id = format!("span-{}", i);
        let out = process_line_at(&end_line(&id), stream, &mut table, now).expect("one record");
        now += 10;
        let v: serde_json::Value = serde_json::from_str(&out).expect("valid json out");
        assert_eq!(v["spanID"].as_str(), Some(id.as_str()));
        assert!(v["duration"].as_i64().expect("integer duration") >= 0);
        emitted += 1;
    }
    assert_eq!(emitted, n);
    assert_eq!(table.open_count(), 0);
}

#[test]
fn start_event_is_consumed_silently() {
    let mut table = SpanTable::new();
    assert!(process_line_at(&start_line("C"), "stdout", &mut table, 3).is_none());
    assert_eq!(table.get(&String::from("C")), Some(3));
}

#[test]
fn other_event_values_fall_through_to_normalization() {
    let mut table = SpanTable::new();
    let line = "{\"event\":\"tick\",\"span\":{\"spanID\":\"D\"}}";
    let out = process_line_at(line, "stdout", &mut table, 4).expect("one record");
    assert_eq!(table.open_count(), 0);
    let v: serde_json::Value = serde_json::from_str(&out).expect("valid json out");
    assert_eq!(v["event"].as_str(), Some("tick"));
    assert_eq!(v["span"]["spanID"].as_str(), Some("D"));
    assert_eq!(v["level"].as_str(), Some("stdout"));
}

#[test]
fn span_without_id_is_not_a_span_event() {
    let mut table = SpanTable::new();
    let line = "{\"event\":\"start\",\"span\":{\"op\":\"x\"}}";
    let out = process_line_at(line, "stdout", &mut table, 4);
    assert!(out.is_some());
    assert_eq!(table.open_count(), 0);
}

#[test]
fn end_record_keeps_extra_span_fields() {
    let mut table = SpanTable::new();
    let start = "{\"event\":\"start\",\"span\":{\"spanID\":\"E\"}}";
    let end = "{\"event\":\"end\",\"span\":{\"spanID\":\"E\",\"op\":\"q\",\"n\":7}}";
    assert!(process_line_at(start, "stdout", &mut table, 0).is_none());
    let out = process_line_at(end, "stdout", &mut table, 50).expect("one record");
    let v: serde_json::Value = serde_json::from_str(&out).expect("valid json out");
    assert_eq!(v["op"].as_str(), Some("q"));
    assert_eq!(v["n"].as_i64(), Some(7));
    assert_eq!(v["duration"].as_i64(), Some(50));
}
