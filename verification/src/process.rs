//! The per-line engine: decide what one line of child output does to the
//! span table and what record, if any, it emits. The spec functions here are
//! the authoritative statement of that behaviour; the executable functions
//! are proved to follow them exactly.

use vstd::prelude::*;
use crate::json::{
    fields_view, has_key, lemma_fields_view, obj_find, obj_get, obj_insert, obj_overlay, obj_put,
    obj_take, overlay, string_eq, Json, JsonV,
};
use crate::parse::{parse_json_line, parse_of};
use crate::text::{render, ser};
use crate::time::{format_rfc3339_nanos, now_nanos, rfc3339_nanos_of};
use crate::track::SpanTable;

verus! {

/// The service tag attached to every correlated span record.
pub open spec fn service_tag() -> Seq<char> {
    "test-service"@
}

/// The event name, span identifier and span fields of a line that has the
/// span-event shape: an object with a string `event` field and an object
/// `span` field that holds a string `spanID` field.
pub open spec fn span_parts(v: JsonV) -> Option<(Seq<char>, Seq<char>, Seq<(Seq<char>, JsonV)>)> {
    match v {
        JsonV::Obj(fs) => match obj_get(fs, "event"@) {
            Some(JsonV::Str(e)) => match obj_get(fs, "span"@) {
                Some(JsonV::Obj(sf)) => match obj_get(sf, "spanID"@) {
                    Some(JsonV::Str(id)) => Some((e, id, sf)),
                    _ => None,
                },
                _ => None,
            },
            _ => None,
        },
        _ => None,
    }
}

/// The field list of a record; every record is an object.
pub open spec fn record_fields(v: JsonV) -> Seq<(Seq<char>, JsonV)> {
    match v {
        JsonV::Obj(fs) => fs,
        _ => Seq::empty(),
    }
}

/// The span parts of a line: those of its parse, where it has one.
pub open spec fn span_of_line(line: Seq<char>) -> Option<
    (Seq<char>, Seq<char>, Seq<(Seq<char>, JsonV)>),
> {
    match parse_of(line) {
        Some(v) => span_parts(v),
        None => None,
    }
}

/// The fallback record for a line that is not a JSON object: the processing
/// instant, the stream name as the level, the line verbatim as the message.
pub open spec fn fallback_record(line: Seq<char>, stream: Seq<char>, now: i64) -> JsonV {
    JsonV::Obj(
        seq![
            ("timestamp"@, JsonV::Str(rfc3339_nanos_of(now))),
            ("level"@, JsonV::Str(stream)),
            ("message"@, JsonV::Str(line)),
        ],
    )
}

/// The record for a JSON-object line that is no span event: the processing
/// instant as the default timestamp, overlaid by the object's own fields (so
/// an own `timestamp` wins), and the stream name as the level where the
/// object brings none.
pub open spec fn passthrough_record(
    fs: Seq<(Seq<char>, JsonV)>,
    stream: Seq<char>,
    now: i64,
) -> JsonV {
    let merged = overlay(seq![("timestamp"@, JsonV::Str(rfc3339_nanos_of(now)))], fs);
    if has_key(merged, "level"@) {
        JsonV::Obj(merged)
    } else {
        JsonV::Obj(obj_insert(merged, "level"@, JsonV::Str(stream)))
    }
}

/// The correlated record emitted for a span `end`: the start instant as the
/// timestamp, the elapsed nanoseconds as the duration, the span's own fields
/// overlaid, and the service tag bound last.
pub open spec fn end_record(sf: Seq<(Seq<char>, JsonV)>, start: i64, now: i64) -> JsonV {
    let base = seq![
        ("timestamp"@, JsonV::Str(rfc3339_nanos_of(start))),
        ("duration"@, JsonV::Int(now - start)),
    ];
    JsonV::Obj(obj_insert(overlay(base, sf), "serviceName"@, JsonV::Str(service_tag())))
}

/// The record for a line that is no span `start` and no matched span `end`.
pub open spec fn normal_record(
    parsed: Option<JsonV>,
    line: Seq<char>,
    stream: Seq<char>,
    now: i64,
) -> JsonV {
    match parsed {
        Some(JsonV::Obj(fs)) => passthrough_record(fs, stream, now),
        _ => fallback_record(line, stream, now),
    }
}

/// What one line does to the span table: a `start` binds its identifier to
/// the processing instant (a second start overwrites the first), a matched
/// `end` removes the binding, every other line leaves the table alone.
pub open spec fn table_after(
    line: Seq<char>,
    table: Map<Seq<char>, i64>,
    now: i64,
) -> Map<Seq<char>, i64> {
    match parse_of(line) {
        Some(v) => match span_parts(v) {
            Some((e, id, sf)) => if e == "start"@ {
                table.insert(id, now)
            } else if e == "end"@ && table.contains_key(id) {
                table.remove(id)
            } else {
                table
            },
            None => table,
        },
        None => table,
    }
}

/// The record one line emits, if any: none for a span `start`, the
/// correlated record for a matched span `end`, none for an unmatched `end`,
/// and the normalized record for every other line.
pub open spec fn output_of(
    line: Seq<char>,
    stream: Seq<char>,
    table: Map<Seq<char>, i64>,
    now: i64,
) -> Option<JsonV> {
    match parse_of(line) {
        Some(v) => match span_parts(v) {
            Some((e, id, sf)) => if e == "start"@ {
                None
            } else if e == "end"@ {
                if table.contains_key(id) {
                    Some(end_record(sf, table[id], now))
                } else {
                    None
                }
            } else {
                Some(normal_record(Some(v), line, stream, now))
            },
            None => Some(normal_record(Some(v), line, stream, now)),
        },
        None => Some(fallback_record(line, stream, now)),
    }
}

fn build_fallback(line: &str, stream: &str, now: i64) -> (r: String)
    ensures
        r@ == ser(fallback_record(line@, stream@, now)),
{
    let mut f: Vec<(String, Json)> = Vec::new();
    f.push((String::from_str("timestamp"), Json::Str(format_rfc3339_nanos(now))));
    f.push((String::from_str("level"), Json::Str(String::from_str(stream))));
    f.push((String::from_str("message"), Json::Str(String::from_str(line))));
    let ghost fv = f@;
    let rec = Json::Obj(f);
    proof {
        lemma_fields_view(fv);
        assert(fields_view(fv) =~= seq![
            ("timestamp"@, JsonV::Str(rfc3339_nanos_of(now))),
            ("level"@, JsonV::Str(stream@)),
            ("message"@, JsonV::Str(line@)),
        ]);
    }
    render(&rec)
}

fn build_passthrough(fs: Vec<(String, Json)>, stream: &str, now: i64) -> (r: String)
    ensures
        r@ == ser(passthrough_record(fields_view(fs@), stream@, now)),
{
    let ghost f0 = fields_view(fs@);
    let mut rec: Vec<(String, Json)> = Vec::new();
    rec.push((String::from_str("timestamp"), Json::Str(format_rfc3339_nanos(now))));
    proof {
        lemma_fields_view(rec@);
        assert(fields_view(rec@) =~= seq![("timestamp"@, JsonV::Str(rfc3339_nanos_of(now)))]);
    }
    obj_overlay(&mut rec, fs);
    let ghost merged = fields_view(rec@);
    let level_key = String::from_str("level");
    let missing = obj_find(&rec, &level_key).is_none();
    if missing {
        obj_put(&mut rec, level_key, Json::Str(String::from_str(stream)));
    }
    let record = Json::Obj(rec);
    proof {
        assert(record@ == passthrough_record(f0, stream@, now));
    }
    render(&record)
}

fn build_end(sf: Vec<(String, Json)>, start: i64, now: i64) -> (r: String)
    requires
        0 <= start,
        0 <= now,
    ensures
        r@ == ser(end_record(fields_view(sf@), start, now)),
{
    let ghost s0 = fields_view(sf@);
    let mut rec: Vec<(String, Json)> = Vec::new();
    rec.push((String::from_str("timestamp"), Json::Str(format_rfc3339_nanos(start))));
    rec.push((String::from_str("duration"), Json::Int(now - start)));
    proof {
        lemma_fields_view(rec@);
        assert(fields_view(rec@) =~= seq![
            ("timestamp"@, JsonV::Str(rfc3339_nanos_of(start))),
            ("duration"@, JsonV::Int(now - start)),
        ]);
    }
    obj_overlay(&mut rec, sf);
    obj_put(&mut rec, String::from_str("serviceName"), Json::Str(String::from_str("test-service")));
    let record = Json::Obj(rec);
    proof {
        assert(record@ == end_record(s0, start, now));
    }
    render(&record)
}

/// What the span-event detection finds in an object line.
enum SpanKind {
    /// Not a span event: the object lacks the span-event shape.
    NotSpan,
    /// The span-event shape with an event other than `start` or `end`.
    Other,
    /// A `start` event for this span identifier.
    Start(String),
    /// An `end` event for this span identifier.
    End(String),
}

fn detect_span(fs: &Vec<(String, Json)>) -> (r: SpanKind)
    ensures
        ({
            let sp = span_parts(JsonV::Obj(fields_view(fs@)));
            match r {
                SpanKind::NotSpan => sp is None,
                SpanKind::Other => sp is Some && (sp->0).0 != "start"@ && (sp->0).0 != "end"@,
                SpanKind::Start(id) => sp is Some && (sp->0).0 == "start"@ && id@ == (sp->0).1,
                SpanKind::End(id) => sp is Some && (sp->0).0 == "end"@ && (sp->0).0 != "start"@
                    && id@ == (sp->0).1,
            }
        }),
{
    let ghost sp = span_parts(JsonV::Obj(fields_view(fs@)));
    let event_key = String::from_str("event");
    match obj_find(fs, &event_key) {
        Some(Json::Str(e)) => {
            let span_key = String::from_str("span");
            match obj_find(fs, &span_key) {
                Some(Json::Obj(sf)) => {
                    let id_key = String::from_str("spanID");
                    match obj_find(sf, &id_key) {
                        Some(Json::Str(id)) => {
                            proof {
                                assert(sp == Some((e@, id@, fields_view(sf@))));
                            }
                            if string_eq(e, &String::from_str("start")) {
                                SpanKind::Start(id.clone())
                            } else if string_eq(e, &String::from_str("end")) {
                                SpanKind::End(id.clone())
                            } else {
                                SpanKind::Other
                            }
                        },
                        _ => SpanKind::NotSpan,
                    }
                },
                _ => SpanKind::NotSpan,
            }
        },
        _ => SpanKind::NotSpan,
    }
}

/// Process one line at a given instant: apply the span transition to the
/// table and hand back the serialized record to emit, if any. The table's
/// new state is exactly [`table_after`], and the output exactly the
/// serialization of [`output_of`].
pub fn process_line_at(line: &str, stream: &str, table: &mut SpanTable, now: i64) -> (r: Option<
    String,
>)
    requires
        old(table).wf(),
        0 <= now,
    ensures
        final(table).wf(),
        final(table)@ == table_after(line@, old(table)@, now),
        match r {
            Some(s) => output_of(line@, stream@, old(table)@, now) is Some && s@ == ser(
                output_of(line@, stream@, old(table)@, now)->0,
            ),
            None => output_of(line@, stream@, old(table)@, now) is None,
        },
{
    let ghost outv = output_of(line@, stream@, old(table)@, now);
    let ghost tabv = table_after(line@, old(table)@, now);
    let parsed = parse_json_line(line);
    match parsed {
        None => {
            proof {
                assert(outv == Some(fallback_record(line@, stream@, now)));
                assert(tabv == old(table)@);
            }
            Some(build_fallback(line, stream, now))
        },
        Some(j) => {
            let ghost jv = j@;
            match j {
                Json::Obj(mut fs) => {
                    let ghost fsv = fields_view(fs@);
                    proof {
                        assert(jv == JsonV::Obj(fsv));
                    }
                    let ghost sp = span_parts(jv);
                    match detect_span(&fs) {
                        SpanKind::Start(id) => {
                            proof {
                                assert(outv is None);
                                assert(tabv == old(table)@.insert(id@, now));
                            }
                            table.set(id, now);
                            None
                        },
                        SpanKind::End(id) => {
                            match table.take(&id) {
                                Some(start) => {
                                    proof {
                                        assert(old(table)@.contains_key(id@));
                                        assert(start == old(table)@[id@]);
                                        assert(tabv == old(table)@.remove(id@));
                                        assert(outv == Some(end_record((sp->0).2, start, now)));
                                        assert(obj_get(fsv, "span"@) == Some(
                                            JsonV::Obj((sp->0).2),
                                        ));
                                    }
                                    let span_key = String::from_str("span");
                                    match obj_take(&mut fs, &span_key) {
                                        Some(Json::Obj(sf)) => {
                                            proof {
                                                assert(fields_view(sf@) == (sp->0).2);
                                            }
                                            Some(build_end(sf, start, now))
                                        },
                                        _ => {
                                            proof {
                                                assert(false);
                                            }
                                            None
                                        },
                                    }
                                },
                                None => {
                                    proof {
                                        assert(outv is None);
                                        assert(tabv == old(table)@);
                                    }
                                    None
                                },
                            }
                        },
                        _ => {
                            proof {
                                assert(sp is None || ((sp->0).0 != "start"@ && (sp->0).0
                                    != "end"@));
                                assert(outv == Some(passthrough_record(fsv, stream@, now)));
                                assert(tabv == old(table)@);
                            }
                            Some(build_passthrough(fs, stream, now))
                        },
                    }
                },
                _ => {
                    proof {
                        assert(!(jv is Obj));
                        assert(outv == Some(fallback_record(line@, stream@, now)));
                        assert(tabv == old(table)@);
                    }
                    Some(build_fallback(line, stream, now))
                },
            }
        },
    }
}

/// Process one line at the current wall-clock instant: the table transition
/// and the output are those of [`process_line_at`] at some non-negative
/// instant `now`.
pub fn process_line(line: &str, stream: &str, table: &mut SpanTable) -> (r: Option<String>)
    requires
        old(table).wf(),
    ensures
        final(table).wf(),
        exists|now: i64|
            #![auto]
            0 <= now && final(table)@ == table_after(line@, old(table)@, now) && (match r {
                Some(s) => output_of(line@, stream@, old(table)@, now) is Some && s@ == ser(
                    output_of(line@, stream@, old(table)@, now)->0,
                ),
                None => output_of(line@, stream@, old(table)@, now) is None,
            }),
{
    let raw = now_nanos();
    let now: i64 = if raw < 0 {
        0
    } else {
        raw
    };
    let r = process_line_at(line, stream, table, now);
    proof {
        assert(0 <= now && table@ == table_after(line@, old(table)@, now) && (match r {
            Some(s) => output_of(line@, stream@, old(table)@, now) is Some && s@ == ser(
                output_of(line@, stream@, old(table)@, now)->0,
            ),
            None => output_of(line@, stream@, old(table)@, now) is None,
        }));
    }
    r
}

} // verus!
