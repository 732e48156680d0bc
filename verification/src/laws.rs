//! The laws the engine obeys, each stated over the spec functions that the
//! executable functions are proved to follow.

use vstd::prelude::*;
use crate::json::{
    has_key, keys_unique, lemma_obj_insert_get, lemma_obj_insert_other, lemma_overlay_absent,
    lemma_overlay_present, obj_get, overlay, JsonV,
};
use crate::parse::parse_of;
use crate::process::{
    end_record, fallback_record, output_of, passthrough_record, record_fields, service_tag,
    span_of_line, span_parts, table_after,
};
use crate::time::rfc3339_nanos_of;

verus! {

broadcast use vstd::string::group_string_axioms;

/// A line that is not a JSON object emits the fallback record: the line
/// verbatim under `message`, the stream name under `level`, the processing
/// instant under `timestamp`. The table is untouched.
pub proof fn lemma_fallback_line(
    line: Seq<char>,
    stream: Seq<char>,
    table: Map<Seq<char>, i64>,
    now: i64,
)
    requires
        !(parse_of(line) is Some && parse_of(line)->0 is Obj),
    ensures
        table_after(line, table, now) == table,
        output_of(line, stream, table, now) == Some(fallback_record(line, stream, now)),
        obj_get(record_fields(fallback_record(line, stream, now)), "message"@) == Some(
            JsonV::Str(line),
        ),
        obj_get(record_fields(fallback_record(line, stream, now)), "level"@) == Some(
            JsonV::Str(stream),
        ),
        obj_get(record_fields(fallback_record(line, stream, now)), "timestamp"@) == Some(
            JsonV::Str(rfc3339_nanos_of(now)),
        ),
{
    reveal_strlit("timestamp");
    reveal_strlit("level");
    reveal_strlit("message");
    reveal_with_fuel(obj_get, 4);
    let a = ("timestamp"@, JsonV::Str(rfc3339_nanos_of(now)));
    let b = ("level"@, JsonV::Str(stream));
    let c = ("message"@, JsonV::Str(line));
    let fsr = record_fields(fallback_record(line, stream, now));
    assert(fsr =~= seq![a, b, c]);
    assert("timestamp"@.len() == 9);
    assert("level"@.len() == 5);
    assert("message"@.len() == 7);
    assert("level"@ != "timestamp"@);
    assert("message"@ != "timestamp"@);
    assert("message"@ != "level"@);
    assert(seq![a, b, c].drop_first() =~= seq![b, c]);
    assert(seq![b, c].drop_first() =~= seq![c]);
    assert(seq![c].drop_first() =~= Seq::<(Seq<char>, JsonV)>::empty());
}

/// A JSON-object line that is no span event and brings no `timestamp` field
/// emits a record stamped with the processing instant, and every field of
/// the source object is kept with its value. The table is untouched.
pub proof fn lemma_passthrough_line(
    line: Seq<char>,
    stream: Seq<char>,
    table: Map<Seq<char>, i64>,
    now: i64,
    fs: Seq<(Seq<char>, JsonV)>,
)
    requires
        parse_of(line) == Some(JsonV::Obj(fs)),
        span_parts(JsonV::Obj(fs)) is None,
        keys_unique(fs),
        !has_key(fs, "timestamp"@),
    ensures
        table_after(line, table, now) == table,
        output_of(line, stream, table, now) == Some(passthrough_record(fs, stream, now)),
        obj_get(record_fields(passthrough_record(fs, stream, now)), "timestamp"@) == Some(
            JsonV::Str(rfc3339_nanos_of(now)),
        ),
        forall|k: Seq<char>|
            has_key(fs, k) ==> obj_get(record_fields(passthrough_record(fs, stream, now)), k)
                == obj_get(fs, k),
{
    reveal_strlit("timestamp");
    reveal_strlit("level");
    let ts = ("timestamp"@, JsonV::Str(rfc3339_nanos_of(now)));
    let base = seq![ts];
    let merged = overlay(base, fs);
    assert(seq![ts].drop_first() =~= Seq::<(Seq<char>, JsonV)>::empty());
    lemma_overlay_absent(base, fs, "timestamp"@);
    assert(obj_get(base, "timestamp"@) == Some(ts.1));
    assert("timestamp"@.len() == 9);
    assert("level"@.len() == 5);
    assert("level"@ != "timestamp"@);
    if !has_key(merged, "level"@) {
        lemma_obj_insert_other(merged, "level"@, JsonV::Str(stream), "timestamp"@);
    }
    assert forall|k: Seq<char>| has_key(fs, k) implies obj_get(
        record_fields(passthrough_record(fs, stream, now)),
        k,
    ) == obj_get(fs, k) by {
        lemma_overlay_present(base, fs, k);
        if !has_key(merged, "level"@) {
            assert(k != "level"@);
            lemma_obj_insert_other(merged, "level"@, JsonV::Str(stream), k);
        }
    }
}

/// An `end` for an identifier with no open span emits nothing and leaves the
/// table exactly as it was.
pub proof fn lemma_unmatched_end(
    line: Seq<char>,
    stream: Seq<char>,
    table: Map<Seq<char>, i64>,
    now: i64,
)
    requires
        span_of_line(line) is Some,
        (span_of_line(line)->0).0 == "end"@,
        !table.contains_key((span_of_line(line)->0).1),
    ensures
        table_after(line, table, now) == table,
        output_of(line, stream, table, now) is None,
{
    reveal_strlit("start");
    reveal_strlit("end");
    assert("start"@.len() == 5);
    assert("end"@.len() == 3);
    assert("end"@ != "start"@);
}

/// Of two `start` events for one identifier, the second wins: the table then
/// binds the identifier to the second instant alone, so an eventual `end`
/// measures from the second start.
pub proof fn lemma_second_start_wins(
    line1: Seq<char>,
    line2: Seq<char>,
    table: Map<Seq<char>, i64>,
    t1: i64,
    t2: i64,
)
    requires
        span_of_line(line1) is Some,
        (span_of_line(line1)->0).0 == "start"@,
        span_of_line(line2) is Some,
        (span_of_line(line2)->0).0 == "start"@,
        (span_of_line(line2)->0).1 == (span_of_line(line1)->0).1,
    ensures
        ({
            let id = (span_of_line(line1)->0).1;
            let after = table_after(line2, table_after(line1, table, t1), t2);
            after.contains_key(id) && after[id] == t2
        }),
{
}

/// A line touches no entry but its own identifier's: every other key's
/// binding, and its instant, survive the step.
pub proof fn lemma_step_frame(
    line: Seq<char>,
    table: Map<Seq<char>, i64>,
    now: i64,
    k: Seq<char>,
)
    requires
        match span_of_line(line) {
            Some(p) => k != p.1,
            None => true,
        },
    ensures
        table_after(line, table, now).contains_key(k) == table.contains_key(k),
        table.contains_key(k) ==> table_after(line, table, now)[k] == table[k],
{
}

/// What a line emits, and what it does to its own identifier, depends on no
/// entry but that identifier's: two tables that agree there step alike.
pub proof fn lemma_step_local(
    line: Seq<char>,
    stream: Seq<char>,
    t1: Map<Seq<char>, i64>,
    t2: Map<Seq<char>, i64>,
    now: i64,
)
    requires
        match span_of_line(line) {
            Some(p) => t1.contains_key(p.1) == t2.contains_key(p.1) && (t1.contains_key(p.1)
                ==> t1[p.1] == t2[p.1]),
            None => true,
        },
    ensures
        output_of(line, stream, t1, now) == output_of(line, stream, t2, now),
{
}

/// Round-trip correlation: a `start` followed by an `end` for the same
/// identifier emits nothing at the start and exactly one record at the end,
/// carrying the span's fields, the elapsed nanoseconds as a non-negative
/// `duration`, and the service tag as `serviceName`.
pub proof fn lemma_round_trip(
    line1: Seq<char>,
    line2: Seq<char>,
    stream: Seq<char>,
    table: Map<Seq<char>, i64>,
    t1: i64,
    t2: i64,
)
    requires
        span_of_line(line1) is Some,
        (span_of_line(line1)->0).0 == "start"@,
        span_of_line(line2) is Some,
        (span_of_line(line2)->0).0 == "end"@,
        (span_of_line(line2)->0).1 == (span_of_line(line1)->0).1,
        !has_key((span_of_line(line2)->0).2, "duration"@),
        !has_key((span_of_line(line2)->0).2, "serviceName"@),
        t1 <= t2,
    ensures
        output_of(line1, stream, table, t1) is None,
        ({
            let after1 = table_after(line1, table, t1);
            let sf = (span_of_line(line2)->0).2;
            let rec = end_record(sf, t1, t2);
            output_of(line2, stream, after1, t2) == Some(rec) && obj_get(
                record_fields(rec),
                "serviceName"@,
            ) == Some(JsonV::Str(service_tag())) && obj_get(record_fields(rec), "duration"@)
                == Some(JsonV::Int(t2 - t1)) && t2 - t1 >= 0
        }),
{
    reveal_strlit("start");
    reveal_strlit("end");
    reveal_strlit("timestamp");
    reveal_strlit("duration");
    reveal_strlit("serviceName");
    reveal_with_fuel(obj_get, 3);
    let id = (span_of_line(line1)->0).1;
    let after1 = table_after(line1, table, t1);
    assert(after1 == table.insert(id, t1));
    assert(after1.contains_key(id) && after1[id] == t1);
    let sf = (span_of_line(line2)->0).2;
    let rec = end_record(sf, t1, t2);
    let ts = ("timestamp"@, JsonV::Str(rfc3339_nanos_of(t1)));
    let du = ("duration"@, JsonV::Int(t2 - t1));
    let base = seq![ts, du];
    let merged = overlay(base, sf);
    assert("start"@.len() == 5);
    assert("end"@.len() == 3);
    assert("timestamp"@.len() == 9);
    assert("duration"@.len() == 8);
    assert("serviceName"@.len() == 11);
    assert("end"@ != "start"@);
    lemma_obj_insert_get(merged, "serviceName"@, JsonV::Str(service_tag()));
    assert("duration"@ != "serviceName"@);
    lemma_obj_insert_other(merged, "serviceName"@, JsonV::Str(service_tag()), "duration"@);
    lemma_overlay_absent(base, sf, "duration"@);
    assert("duration"@ != "timestamp"@);
    assert(base.drop_first() =~= seq![du]);
    assert(seq![du].drop_first() =~= Seq::<(Seq<char>, JsonV)>::empty());
    assert(obj_get(base, "duration"@) == Some(du.1));
}

} // verus!
