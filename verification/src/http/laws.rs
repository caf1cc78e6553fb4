//! What the answers of the HTTP API show of what is on record, under which name.

use super::alerts::{self, AlertHistoryEntry};
use super::events::{self, Action, Bucket, Direction, GroupBy, StoredEvent};
use super::streams;
use crate::json::{self, JsonView, NumberView};
use crate::rule_lifecycle_bus::RuleLifecycleEvent;
use crate::text;
use crate::timestamp::DateReading;
use vstd::prelude::*;

verus! {

/// A number by which names can be told apart.
spec fn mark(s: Seq<char>) -> int {
    s.len() * 1000000 + (s[0] as int) * 1000 + s[1] as int
}

/// The heading of a column of a table.
pub open spec fn heading(t: JsonView, c: int) -> JsonView {
    t->Object_0["columns"@]->Array_0[c]->Object_0["text"@]
}

/// What a table holds in a row under a column.
pub open spec fn cell(t: JsonView, r: int, c: int) -> JsonView {
    t->Object_0["rows"@]->Array_0[r]->Array_0[c]
}

/// Whether JSON is an object with columns and rows, as many cells in each row as there are
/// columns.
pub open spec fn is_table(t: JsonView, columns: int, rows: int) -> bool {
    &&& t is Object
    &&& t->Object_0.contains_key("columns"@) && t->Object_0["columns"@] is Array
    &&& t->Object_0["columns"@]->Array_0.len() == columns
    &&& t->Object_0.contains_key("rows"@) && t->Object_0["rows"@] is Array
    &&& t->Object_0["rows"@]->Array_0.len() == rows
    &&& forall|r: int|
        0 <= r < rows ==> (#[trigger] t->Object_0["rows"@]->Array_0[r]) is Array
            && t->Object_0["rows"@]->Array_0[r]->Array_0.len() == columns
}

/// Whether JSON is a whole number.
pub open spec fn is_number(j: JsonView, n: int) -> bool {
    if n >= 0 {
        j == JsonView::Number(NumberView::Unsigned(n as nat))
    } else {
        j == JsonView::Number(NumberView::Negative(n))
    }
}

/// The names of the parts of a table and of a column differ.
proof fn lemma_table_names()
    ensures
        "columns"@ != "rows"@,
        "text"@ != "type"@,
{
    reveal_strlit("columns");
    reveal_strlit("rows");
    reveal_strlit("text");
    reveal_strlit("type");
    assert("columns"@.len() != "rows"@.len());
    assert("text"@[1] != "type"@[1]);
}

/// An event that is shown as an object has each of its facts under the name of the fact:
/// where it came from under `src_ip`, where it went under `dst_ip`, and so on. The time is
/// in whole milliseconds.
pub proof fn log_shows_the_event(e: StoredEvent, m: Map<Seq<char>, JsonView>)
    requires
        events::event_object(e) == JsonView::Object(m),
    ensures
        m.contains_key("src_ip"@) && m["src_ip"@] == JsonView::Str(e.src_ip@),
        m.contains_key("dst_ip"@) && m["dst_ip"@] == JsonView::Str(e.dst_ip@),
        m.contains_key("sport"@) && is_number(m["sport"@], e.sport as int),
        m.contains_key("dport"@) && is_number(m["dport"@], e.dport as int),
        m.contains_key("proto"@) && is_number(m["proto"@], e.proto as int),
        m.contains_key("pkt_len"@) && is_number(m["pkt_len"@], e.pkt_len as int),
        m.contains_key("node_id"@) && m["node_id"@] == JsonView::Str(e.node_id@),
        m.contains_key("id"@) && m["id"@] == JsonView::Str(text::decimal_int(e.id as int)),
        m.contains_key("rule_id"@) && m["rule_id"@] == JsonView::Str(
            text::decimal_int(e.rule_id as int),
        ),
        m.contains_key("action"@) && m["action"@] == JsonView::Str(
            match e.action {
                Action::Drop => "drop"@,
                Action::Log => "log"@,
            },
        ),
        m.contains_key("direction"@) && m["direction"@] == JsonView::Str(
            match e.direction {
                Direction::Ingress => "ingress"@,
                Direction::Egress => "egress"@,
            },
        ),
        m.contains_key("sni"@) && m["sni"@] == (match e.sni {
            Some(s) => JsonView::Str(s@),
            None => JsonView::Null,
        }),
        m.contains_key("timestamp"@) && exists|ms: int|
            {
                &&& #[trigger] is_number(m["timestamp"@], ms)
                &&& e.ts_ns >= 0 ==> ms >= 0 && ms * 1000000 <= e.ts_ns < ms * 1000000 + 1000000
                &&& e.ts_ns < 0 ==> ms <= 0 && ms * 1000000 - 1000000 < e.ts_ns <= ms * 1000000
            },
{
    reveal_strlit("id");
    reveal_strlit("timestamp");
    reveal_strlit("node_id");
    reveal_strlit("rule_id");
    reveal_strlit("action");
    reveal_strlit("direction");
    reveal_strlit("src_ip");
    reveal_strlit("dst_ip");
    reveal_strlit("sport");
    reveal_strlit("dport");
    reveal_strlit("proto");
    reveal_strlit("pkt_len");
    reveal_strlit("sni");
    assert(mark("id"@) == 2105100);
    assert(mark("timestamp"@) == 9116105);
    assert(mark("node_id"@) == 7110111);
    assert(mark("rule_id"@) == 7114117);
    assert(mark("action"@) == 6097099);
    assert(mark("direction"@) == 9100105);
    assert(mark("src_ip"@) == 6115114);
    assert(mark("dst_ip"@) == 6100115);
    assert(mark("sport"@) == 5115112);
    assert(mark("dport"@) == 5100112);
    assert(mark("proto"@) == 5112114);
    assert(mark("pkt_len"@) == 7112107);
    assert(mark("sni"@) == 3115110);
    let ms = events::millis(e.ts_ns as int);
    assert(is_number(m["timestamp"@], ms));
}

/// A table of events and the same events as objects show the same: under each heading a
/// row has what the object of its event has under that name. An event without a server
/// name has an empty text in the table and nothing in the object.
#[verifier::rlimit(40)]
pub proof fn table_and_logs_show_the_same_events(
    rows: Seq<StoredEvent>,
    t: JsonView,
    logs: Seq<JsonView>,
)
    requires
        t == events::table(
            events::event_columns(),
            rows.map_values(|e: StoredEvent| events::event_row(e)),
        ),
        logs == rows.map_values(|e: StoredEvent| events::event_object(e)),
    ensures
        is_table(t, 13, rows.len() as int),
        logs.len() == rows.len(),
        forall|r: int, c: int|
            0 <= r < rows.len() && 0 <= c < 13 ==> {
                &&& heading(t, c) is Str
                &&& logs[r]->Object_0.contains_key(heading(t, c)->Str_0)
                &&& heading(t, c)->Str_0 == "sni"@ && rows[r].sni is None ==> cell(t, r, c)
                    is Str && cell(t, r, c)->Str_0.len() == 0
                &&& !(heading(t, c)->Str_0 == "sni"@ && rows[r].sni is None)
                    ==> #[trigger] cell(t, r, c) == logs[r]->Object_0[heading(t, c)->Str_0]
            },
        forall|r: int, k: Seq<char>|
            0 <= r < rows.len() && #[trigger] logs[r]->Object_0.contains_key(k) ==> exists|c: int|
                0 <= c < 13 && #[trigger] heading(t, c) == JsonView::Str(k),
{
    lemma_table_names();
    reveal_strlit("id");
    reveal_strlit("timestamp");
    reveal_strlit("node_id");
    reveal_strlit("rule_id");
    reveal_strlit("action");
    reveal_strlit("direction");
    reveal_strlit("src_ip");
    reveal_strlit("dst_ip");
    reveal_strlit("sport");
    reveal_strlit("dport");
    reveal_strlit("proto");
    reveal_strlit("pkt_len");
    reveal_strlit("sni");
    assert(mark("id"@) == 2105100);
    assert(mark("timestamp"@) == 9116105);
    assert(mark("node_id"@) == 7110111);
    assert(mark("rule_id"@) == 7114117);
    assert(mark("action"@) == 6097099);
    assert(mark("direction"@) == 9100105);
    assert(mark("src_ip"@) == 6115114);
    assert(mark("dst_ip"@) == 6100115);
    assert(mark("sport"@) == 5115112);
    assert(mark("dport"@) == 5100112);
    assert(mark("proto"@) == 5112114);
    assert(mark("pkt_len"@) == 7112107);
    assert(mark("sni"@) == 3115110);
    reveal_strlit("");
    assert(heading(t, 0) == JsonView::Str("id"@));
    assert(heading(t, 1) == JsonView::Str("timestamp"@));
    assert(heading(t, 2) == JsonView::Str("node_id"@));
    assert(heading(t, 3) == JsonView::Str("rule_id"@));
    assert(heading(t, 4) == JsonView::Str("action"@));
    assert(heading(t, 5) == JsonView::Str("direction"@));
    assert(heading(t, 6) == JsonView::Str("src_ip"@));
    assert(heading(t, 7) == JsonView::Str("dst_ip"@));
    assert(heading(t, 8) == JsonView::Str("sport"@));
    assert(heading(t, 9) == JsonView::Str("dport"@));
    assert(heading(t, 10) == JsonView::Str("proto"@));
    assert(heading(t, 11) == JsonView::Str("pkt_len"@));
    assert(heading(t, 12) == JsonView::Str("sni"@));
    assert forall|r: int, c: int| 0 <= r < rows.len() && 0 <= c < 13 implies {
        &&& heading(t, c) is Str
        &&& logs[r]->Object_0.contains_key(heading(t, c)->Str_0)
        &&& heading(t, c)->Str_0 == "sni"@ && rows[r].sni is None ==> cell(t, r, c) is Str && cell(
            t,
            r,
            c,
        )->Str_0.len() == 0
        &&& !(heading(t, c)->Str_0 == "sni"@ && rows[r].sni is None) ==> #[trigger] cell(t, r, c)
            == logs[r]->Object_0[heading(t, c)->Str_0]
    } by {
        assert(t->Object_0["rows"@]->Array_0[r] == events::event_row(rows[r]));
        assert(logs[r] == events::event_object(rows[r]));
    }
    assert forall|r: int, k: Seq<char>|
        0 <= r < rows.len() && #[trigger] logs[r]->Object_0.contains_key(k) implies exists|c: int|
        0 <= c < 13 && #[trigger] heading(t, c) == JsonView::Str(k) by {
        assert(logs[r] == events::event_object(rows[r]));
        assert(k == "id"@ || k == "timestamp"@ || k == "node_id"@ || k == "rule_id"@ || k == "action"@ || k == "direction"@ || k == "src_ip"@ || k == "dst_ip"@ || k == "sport"@ || k == "dport"@ || k == "proto"@ || k == "pkt_len"@ || k == "sni"@);
    }
}

/// An alert that is shown as an object has each of its facts under the name of the fact.
/// The times are in milliseconds; one that is not resolved has nothing for that time. A
/// rule that is gone is called by its number.
pub proof fn log_shows_the_alert(
    e: AlertHistoryEntry,
    names: Map<i64, (String, String)>,
    m: Map<Seq<char>, JsonView>,
)
    requires
        alerts::history_object(e, names) == JsonView::Object(m),
    ensures
        m.contains_key("id"@) && m["id"@] == JsonView::Str(text::decimal_int(e.id as int)),
        m.contains_key("fired_at"@) && is_number(m["fired_at"@], e.fired_at * 1000),
        m.contains_key("resolved_at"@) && match e.resolved_at {
            Some(at) => is_number(m["resolved_at"@], at * 1000),
            None => m["resolved_at"@] is Null,
        },
        m.contains_key("rule_id"@) && m["rule_id"@] == JsonView::Str(
            text::decimal_int(e.rule_id as int),
        ),
        m.contains_key("rule_name"@) && m["rule_name"@] == JsonView::Str(
            if names.contains_key(e.rule_id) {
                names[e.rule_id].0@
            } else {
                "rule:"@ + text::decimal_int(e.rule_id as int)
            },
        ),
        m.contains_key("severity"@) && m["severity"@] == JsonView::Str(
            if names.contains_key(e.rule_id) {
                names[e.rule_id].1@
            } else {
                "info"@
            },
        ),
        m.contains_key("group_key"@) && m["group_key"@] == JsonView::Str(e.group_key@),
        m.contains_key("event_count"@) && is_number(m["event_count"@], e.event_count as int),
        m.contains_key("silenced"@) && m["silenced"@] == JsonView::Bool(e.silenced),
{
    reveal_strlit("id");
    reveal_strlit("fired_at");
    reveal_strlit("resolved_at");
    reveal_strlit("rule_id");
    reveal_strlit("rule_name");
    reveal_strlit("severity");
    reveal_strlit("group_key");
    reveal_strlit("event_count");
    reveal_strlit("silenced");
    assert(mark("id"@) == 2105100);
    assert(mark("fired_at"@) == 8102105);
    assert(mark("resolved_at"@) == 11114101);
    assert(mark("rule_id"@) == 7114117);
    assert(mark("rule_name"@) == 9114117);
    assert(mark("severity"@) == 8115101);
    assert(mark("group_key"@) == 9103114);
    assert(mark("event_count"@) == 11101118);
    assert(mark("silenced"@) == 8115105);
}

/// A table of alerts and the same alerts as objects show the same: under each heading a row
/// has what the object of its alert has under that name. Whether an alert is silenced is a
/// number in the table.
#[verifier::rlimit(40)]
pub proof fn table_and_logs_show_the_same_alerts(
    entries: Seq<AlertHistoryEntry>,
    names: Map<i64, (String, String)>,
    t: JsonView,
    logs: JsonView,
)
    requires
        t == alerts::shown(entries, names, None),
        logs == alerts::shown(entries, names, Some("logs"@)),
    ensures
        is_table(t, 9, entries.len() as int),
        logs is Array && logs->Array_0.len() == entries.len(),
        forall|r: int, c: int|
            0 <= r < entries.len() && 0 <= c < 9 ==> {
                let row = logs->Array_0[r]->Object_0;
                &&& heading(t, c) is Str
                &&& row.contains_key(heading(t, c)->Str_0)
                &&& heading(t, c)->Str_0 == "silenced"@ ==> is_number(
                    cell(t, r, c),
                    if entries[r].silenced {
                        1
                    } else {
                        0
                    },
                )
                &&& heading(t, c)->Str_0 != "silenced"@ ==> #[trigger] cell(t, r, c)
                    == row[heading(t, c)->Str_0]
            },
        forall|r: int, k: Seq<char>|
            0 <= r < entries.len() && #[trigger] logs->Array_0[r]->Object_0.contains_key(k)
                ==> exists|c: int| 0 <= c < 9 && #[trigger] heading(t, c) == JsonView::Str(k),
{
    lemma_table_names();
    reveal_strlit("annotations");
    reveal_strlit("logs");
    assert("annotations"@.len() != "logs"@.len());
    reveal_strlit("id");
    reveal_strlit("fired_at");
    reveal_strlit("resolved_at");
    reveal_strlit("rule_id");
    reveal_strlit("rule_name");
    reveal_strlit("severity");
    reveal_strlit("group_key");
    reveal_strlit("event_count");
    reveal_strlit("silenced");
    assert(mark("id"@) == 2105100);
    assert(mark("fired_at"@) == 8102105);
    assert(mark("resolved_at"@) == 11114101);
    assert(mark("rule_id"@) == 7114117);
    assert(mark("rule_name"@) == 9114117);
    assert(mark("severity"@) == 8115101);
    assert(mark("group_key"@) == 9103114);
    assert(mark("event_count"@) == 11101118);
    assert(mark("silenced"@) == 8115105);
    assert(heading(t, 0) == JsonView::Str("id"@));
    assert(heading(t, 1) == JsonView::Str("fired_at"@));
    assert(heading(t, 2) == JsonView::Str("resolved_at"@));
    assert(heading(t, 3) == JsonView::Str("rule_id"@));
    assert(heading(t, 4) == JsonView::Str("rule_name"@));
    assert(heading(t, 5) == JsonView::Str("severity"@));
    assert(heading(t, 6) == JsonView::Str("group_key"@));
    assert(heading(t, 7) == JsonView::Str("event_count"@));
    assert(heading(t, 8) == JsonView::Str("silenced"@));
    assert forall|r: int, c: int| 0 <= r < entries.len() && 0 <= c < 9 implies {
        let row = logs->Array_0[r]->Object_0;
        &&& heading(t, c) is Str
        &&& row.contains_key(heading(t, c)->Str_0)
        &&& heading(t, c)->Str_0 == "silenced"@ ==> is_number(
            cell(t, r, c),
            if entries[r].silenced {
                1
            } else {
                0
            },
        )
        &&& heading(t, c)->Str_0 != "silenced"@ ==> #[trigger] cell(t, r, c) == row[heading(
            t,
            c,
        )->Str_0]
    } by {
        assert(t->Object_0["rows"@]->Array_0[r] == alerts::history_row(entries[r], names));
        assert(logs->Array_0[r] == alerts::history_object(entries[r], names));
    }
    assert forall|r: int, k: Seq<char>|
        0 <= r < entries.len() && #[trigger] logs->Array_0[r]->Object_0.contains_key(k) implies
        exists|c: int| 0 <= c < 9 && #[trigger] heading(t, c) == JsonView::Str(k) by {
        assert(logs->Array_0[r] == alerts::history_object(entries[r], names));
        assert(k == "id"@ || k == "fired_at"@ || k == "resolved_at"@ || k == "rule_id"@ || k == "rule_name"@ || k == "severity"@ || k == "group_key"@ || k == "event_count"@ || k == "silenced"@);
    }
}

/// An alert that is shown as an annotation spans the time from when it fired to when it was
/// resolved, or that moment alone, under the name of its rule; it is tagged as silenced just
/// where it is.
pub proof fn annotation_shows_the_alert(
    e: AlertHistoryEntry,
    names: Map<i64, (String, String)>,
    m: Map<Seq<char>, JsonView>,
)
    requires
        alerts::annotation(e, names) == JsonView::Object(m),
    ensures
        m.contains_key("time"@) && is_number(m["time"@], e.fired_at * 1000),
        m.contains_key("timeEnd"@) && is_number(
            m["timeEnd"@],
            match e.resolved_at {
                Some(at) => at * 1000,
                None => e.fired_at * 1000,
            },
        ),
        m.contains_key("title"@) && (names.contains_key(e.rule_id) ==> m["title"@]
            == JsonView::Str(names[e.rule_id].0@)),
        m.contains_key("tags"@) && m["tags"@] is Array,
        m["tags"@]->Array_0.contains(
            JsonView::Str("rule:"@ + text::decimal_int(e.rule_id as int)),
        ),
        names.contains_key(e.rule_id) ==> m["tags"@]->Array_0.contains(
            JsonView::Str("severity:"@ + names[e.rule_id].1@),
        ),
        m["tags"@]->Array_0.len() == (if e.silenced {
            3int
        } else {
            2
        }),
        e.silenced ==> m["tags"@]->Array_0.contains(JsonView::Str("silenced"@)),
{
    reveal_strlit("time");
    reveal_strlit("timeEnd");
    reveal_strlit("title");
    reveal_strlit("text");
    reveal_strlit("tags");
    assert(mark("time"@) == 4116105);
    assert(mark("timeEnd"@) == 7116105);
    assert(mark("title"@) == 5116105);
    assert(mark("text"@) == 4116101);
    assert(mark("tags"@) == 4116097);
    let tags = m["tags"@]->Array_0;
    assert(tags[0] is Str && tags[1] == JsonView::Str(
        "rule:"@ + text::decimal_int(e.rule_id as int),
    ));
    if names.contains_key(e.rule_id) {
        assert(tags[0] == JsonView::Str("severity:"@ + names[e.rule_id].1@));
    }
    if e.silenced {
        assert(tags[2] == JsonView::Str("silenced"@));
    }
}

/// Counts as a series and as a table show the same counts. The time of a datapoint is the
/// number that the bucket has for its key, counted in minutes or in hours, in milliseconds.
pub proof fn series_and_table_show_the_same_counts(
    buckets: Seq<Bucket>,
    g: GroupBy,
    group_by: Seq<char>,
    t: JsonView,
    points: Seq<JsonView>,
)
    requires
        t == events::counts_table(buckets, group_by),
        events::counts_series(buckets, g, group_by)->Array_0[0]->Object_0["datapoints"@]
            == JsonView::Array(points),
    ensures
        is_table(t, 2, buckets.len() as int),
        heading(t, 0) == JsonView::Str(group_by),
        heading(t, 1) == JsonView::Str("count"@),
        points.len() == buckets.len(),
        forall|i: int|
            0 <= i < buckets.len() ==> {
                &&& cell(t, i, 0) == JsonView::Str((#[trigger] buckets[i]).key@)
                &&& is_number(cell(t, i, 1), buckets[i].count as int)
                &&& points[i]->Array_0.len() == 2
                &&& points[i]->Array_0[0] == cell(t, i, 1)
            },
        forall|i: int, n: int|
            0 <= i < buckets.len() && i64::MIN <= n <= i64::MAX && (#[trigger] buckets[i]).key@
                == #[trigger] text::decimal_int(n) ==> {
                &&& g is Minute ==> is_number(points[i]->Array_0[1], n * 60000)
                &&& g is Hour ==> is_number(points[i]->Array_0[1], n * 3600000)
            },
{
    lemma_table_names();
    reveal_strlit("target");
    reveal_strlit("datapoints");
    assert("target"@.len() != "datapoints"@.len());
    assert(points =~= buckets.map_values(|b: Bucket| events::datapoint(b, g)));
    assert forall|i: int| 0 <= i < buckets.len() implies {
        &&& cell(t, i, 0) == JsonView::Str((#[trigger] buckets[i]).key@)
        &&& is_number(cell(t, i, 1), buckets[i].count as int)
        &&& points[i]->Array_0.len() == 2
        &&& points[i]->Array_0[0] == cell(t, i, 1)
    } by {
        assert(t->Object_0["rows"@]->Array_0[i] == events::bucket_row(buckets[i]));
        assert(points[i] == events::datapoint(buckets[i], g));
    }
    assert forall|i: int, n: int|
        0 <= i < buckets.len() && i64::MIN <= n <= i64::MAX && (#[trigger] buckets[i]).key@
            == #[trigger] text::decimal_int(n) implies {
        &&& g is Minute ==> is_number(points[i]->Array_0[1], n * 60000)
        &&& g is Hour ==> is_number(points[i]->Array_0[1], n * 3600000)
    } by {
        lemma_int_read_back(n);
        assert(points[i] == events::datapoint(buckets[i], g));
        assert(events::bucket_index(buckets[i]) == n);
    }
}

/// The notation of a number is read as the number.
proof fn lemma_int_read_back(n: int)
    requires
        i64::MIN <= n <= i64::MAX,
    ensures
        text::parse_int(text::decimal_int(n)) == Some(n),
{
    if n < 0 {
        text::decimal_round_trip((-n) as nat);
        let s = text::decimal_int(n);
        assert(s.skip(1) =~= text::decimal((-n) as nat));
        assert(s[0] == '-');
    } else {
        text::decimal_round_trip(n as nat);
        let s = text::decimal_int(n);
        assert(text::is_digit(s[0]));
    }
}

/// The bounds of events and of alerts in time are one moment: the nanoseconds of a date are
/// its seconds and the part of a second behind them.
pub proof fn bounds_tell_one_moment(s: Seq<char>, secs: int, nanos: int)
    requires
        0 <= nanos < 1000000000,
    ensures
        events::secs_of(s, DateReading::At { secs, nanos }) == Ok::<int, Seq<char>>(secs),
        events::nanos_of(s, DateReading::At { secs, nanos }) is Ok <==> i64::MIN <= secs
            * 1000000000 + nanos <= i64::MAX,
        events::nanos_of(s, DateReading::At { secs, nanos }) matches Ok(n) ==> n / 1000000000
            == secs && n % 1000000000 == nanos,
{
}

/// A stream that is limited to a node carries what comes from it and nothing else; one that
/// is not carries everything.
pub proof fn stream_carries_its_node(wanted: Seq<char>, node_id: Seq<char>)
    ensures
        streams::passes(Some(wanted), node_id) <==> wanted == node_id,
        streams::passes(None, node_id),
{
}

/// Whether a text is an event with the node that it comes from: the event itself where that
/// is no object, else JSON that has the node under `node_id` and the rest of the event.
pub open spec fn tells(frame: Seq<char>, event: Seq<char>, node_id: Seq<char>) -> bool {
    match json::json_of_text(event) {
        json::Parsed::Value(JsonView::Object(m)) => exists|n: Map<Seq<char>, JsonView>|
            {
                &&& frame == #[trigger] json::printed_json(JsonView::Object(n))
                &&& n.contains_key("node_id"@) && n["node_id"@] == JsonView::Str(node_id)
                &&& n.remove("node_id"@) == m.remove("node_id"@)
            },
        _ => frame == event,
    }
}

/// A frame says where the event comes from, and is the event otherwise. Every event that is
/// text has a frame, in the order of the events.
pub proof fn frame_is_the_event_and_its_node(events: Seq<Seq<u8>>, node_id: Seq<char>)
    requires
        forall|i: int| 0 <= i < events.len() ==> vstd::utf8::valid_utf8(#[trigger] events[i]),
    ensures
        streams::frames(events, node_id).len() == events.len(),
        forall|i: int|
            0 <= i < events.len() ==> tells(
                #[trigger] streams::frames(events, node_id)[i],
                vstd::utf8::decode_utf8(events[i]),
                node_id,
            ),
    decreases events.len(),
{
    if events.len() > 0 {
        let front = events.drop_last();
        assert forall|i: int| 0 <= i < front.len() implies vstd::utf8::valid_utf8(
            #[trigger] front[i],
        ) by {
            assert(front[i] == events[i]);
        }
        frame_is_the_event_and_its_node(front, node_id);
        let n = events.len() - 1;
        assert(events[n] == events.last());
        let all = streams::frames(events, node_id);
        assert forall|i: int| 0 <= i < events.len() implies tells(
            #[trigger] all[i],
            vstd::utf8::decode_utf8(events[i]),
            node_id,
        ) by {
            if i < n {
                assert(all[i] == streams::frames(front, node_id)[i]);
                assert(events[i] == front[i]);
            } else {
                let event = vstd::utf8::decode_utf8(events[i]);
                if let json::Parsed::Value(JsonView::Object(m)) = json::json_of_text(event) {
                    let w = m.insert("node_id"@, JsonView::Str(node_id));
                    assert(w.remove("node_id"@) =~= m.remove("node_id"@));
                    assert(all[i] == json::printed_json(JsonView::Object(w)));
                }
            }
        }
    }
}

/// What is no text has no frame.
pub proof fn frames_skip_what_is_no_text(events: Seq<Seq<u8>>, bytes: Seq<u8>, node_id: Seq<char>)
    requires
        !vstd::utf8::valid_utf8(bytes),
    ensures
        streams::frames(events.push(bytes), node_id) == streams::frames(events, node_id),
{
    assert(events.push(bytes).drop_last() =~= events);
}

/// A frame of a rule lifecycle event has each of its facts under the name of the fact.
pub proof fn lifecycle_frame_shows_the_event(e: RuleLifecycleEvent, m: Map<Seq<char>, JsonView>)
    requires
        json::makes_object(streams::lifecycle_members(e@), m),
    ensures
        m.contains_key("event_type"@) && m["event_type"@] == JsonView::Str(e.event_type@),
        m.contains_key("rule_id"@) && m["rule_id"@] == JsonView::Str(e.rule_id@),
        m.contains_key("node_id"@) && m["node_id"@] == JsonView::Str(e.node_id@),
        m.contains_key("interface_name"@) && m["interface_name"@] == JsonView::Str(
            e.interface_name@,
        ),
        m.contains_key("direction"@) && m["direction"@] == JsonView::Str(e.direction@),
        m.contains_key("timestamp_ms"@) && is_number(m["timestamp_ms"@], e.timestamp_ms as int),
        match e.reason {
            Some(r) => m.contains_key("reason"@) && m["reason"@] == JsonView::Str(r@),
            None => !m.contains_key("reason"@),
        },
{
    let s = streams::lifecycle_members(e@);
    reveal_strlit("event_type");
    reveal_strlit("rule_id");
    reveal_strlit("node_id");
    reveal_strlit("interface_name");
    reveal_strlit("direction");
    reveal_strlit("timestamp_ms");
    reveal_strlit("reason");
    assert("reason"@.len() == 6);
    assert(s[0].0 == "event_type"@ && s[1].0 == "rule_id"@ && s[2].0 == "node_id"@ && s[3].0
        == "interface_name"@ && s[4].0 == "direction"@ && s[5].0 == "timestamp_ms"@);
    if e.reason is Some {
        assert(s[6].0 == "reason"@);
    } else if m.contains_key("reason"@) {
        let i = choose|i: int| 0 <= i < s.len() && (#[trigger] s[i]).0 == "reason"@;
        assert(s.len() == 6);
    }
}

} // verus!
