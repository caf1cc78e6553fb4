//! The history of alerts, as the REST API shows it.

use super::events;
use crate::json::{self, Json, JsonView};
use crate::text;
use crate::timestamp;
use std::collections::HashMap;
use vstd::prelude::*;

verus! {

broadcast use {vstd::string::group_string_axioms, vstd::std_specs::hash::group_hash_axioms};

/// An alert that fired.
pub struct AlertHistoryEntry {
    pub id: i64,
    pub rule_id: i64,
    pub group_key: String,
    /// Unix seconds.
    pub fired_at: i64,
    pub resolved_at: Option<i64>,
    pub event_count: i64,
    pub silenced: bool,
}

/// What a caller asks of the history.
pub struct AlertHistoryQuery {
    /// RFC3339 inclusive lower bound on fired_at.
    pub since: Option<String>,
    /// RFC3339 exclusive upper bound on fired_at.
    pub until: Option<String>,
    pub rule_id: Option<i64>,
    pub limit: Option<i64>,
    pub cursor: Option<i64>,
}

/// Which alerts are looked for.
pub struct HistoryFilter {
    pub rule_id: Option<i64>,
    pub since: Option<i64>,
    pub until: Option<i64>,
    pub cursor: Option<i64>,
}

/// How many alerts are shown where nobody asks for a number.
pub const DEFAULT_LIMIT: i64 = 500;

/// What a bound in time that may be given comes to.
pub open spec fn bound(given: Option<String>) -> Result<Option<int>, Seq<char>> {
    match given {
        None => Ok(None),
        Some(s) => match events::secs_of(s@, timestamp::rfc3339_reading(s@)) {
            Ok(n) => Ok(Some(n)),
            Err(e) => Err(e),
        },
    }
}

/// Whether the number is the one that is expected, if one is.
pub open spec fn same_bound(n: Option<i64>, expected: Option<int>) -> bool {
    match expected {
        Some(e) => n matches Some(v) && v == e,
        None => n is None,
    }
}

/// The number of a bound in time that may be given.
fn read_bound(given: &Option<String>) -> (r: Result<Option<i64>, String>)
    ensures
        match bound(*given) {
            Ok(n) => r matches Ok(v) && same_bound(v, n),
            Err(e) => r matches Err(m) && m@ == e,
        },
{
    match given {
        None => Ok(None),
        Some(s) => match events::parse_rfc3339_s(s.as_str()) {
            Ok(n) => Ok(Some(n)),
            Err(e) => Err(e),
        },
    }
}

/// Whether a filter looks for the alerts that a query asks for.
pub open spec fn looks_for(q: AlertHistoryQuery, f: HistoryFilter) -> bool {
    &&& bound(q.since) matches Ok(since) && same_bound(f.since, since)
    &&& bound(q.until) matches Ok(until) && same_bound(f.until, until)
    &&& f.rule_id == q.rule_id
    &&& f.cursor == q.cursor
}

/// Which alerts a query looks for; a bound that cannot be used is refused.
pub fn history_filter(q: &AlertHistoryQuery) -> (r: Result<HistoryFilter, String>)
    ensures
        r matches Ok(f) ==> looks_for(*q, f),
        match (bound(q.since), bound(q.until)) {
            (Err(e), _) => r matches Err(m) && m@ == e,
            (Ok(_), Err(e)) => r matches Err(m) && m@ == e,
            (Ok(since), Ok(until)) => r matches Ok(f) && same_bound(f.since, since) && same_bound(
                f.until,
                until,
            ) && f.rule_id == q.rule_id && f.cursor == q.cursor,
        },
{
    let since = match read_bound(&q.since) {
        Ok(n) => n,
        Err(e) => {
            return Err(e);
        },
    };
    let until = match read_bound(&q.until) {
        Ok(n) => n,
        Err(e) => {
            return Err(e);
        },
    };
    Ok(HistoryFilter { rule_id: q.rule_id, since, until, cursor: q.cursor })
}

/// Whether the times of the alert can be told in milliseconds.
pub open spec fn tells_time(e: AlertHistoryEntry) -> bool {
    &&& i64::MIN <= e.fired_at * 1_000 <= i64::MAX
    &&& e.resolved_at matches Some(t) ==> i64::MIN <= t * 1_000 <= i64::MAX
}

/// Whether the times of all alerts can be told in milliseconds.
pub open spec fn all_tell_time(entries: Seq<AlertHistoryEntry>) -> bool {
    forall|i: int| 0 <= i < entries.len() ==> tells_time(#[trigger] entries[i])
}

/// The name and the severity of the rule behind an alert; what stands for them where the
/// rule is gone.
pub open spec fn rule_of(rule_id: i64, names: Map<i64, (String, String)>) -> (
    Seq<char>,
    Seq<char>,
) {
    if names.contains_key(rule_id) {
        (names[rule_id].0@, names[rule_id].1@)
    } else {
        ("rule:"@ + text::decimal_int(rule_id as int), "info"@)
    }
}

/// The name and the severity of the rule behind an alert.
fn name_rule(rule_id: i64, rule_names: &HashMap<i64, (String, String)>) -> (r: (String, String))
    ensures
        (r.0@, r.1@) == rule_of(rule_id, rule_names@),
{
    match rule_names.get(&rule_id) {
        Some(p) => (p.0.clone(), p.1.clone()),
        None => (
            text::concat2("rule:", text::i64_text(rule_id).as_str()),
            "info".to_string(),
        ),
    }
}

/// When an alert was resolved, in milliseconds, if it was.
pub open spec fn resolved_json(e: AlertHistoryEntry) -> JsonView {
    match e.resolved_at {
        Some(t) => json::integer_json(t * 1_000),
        None => JsonView::Null,
    }
}

/// When an alert was resolved, in milliseconds, if it was.
fn make_resolved(e: &AlertHistoryEntry) -> (j: Json)
    requires
        tells_time(*e),
    ensures
        j@ == resolved_json(*e),
        j.wf(),
{
    match e.resolved_at {
        Some(t) => json::integer(t * 1_000),
        None => Json::Null,
    }
}

/// An alert as an annotation: a span of time with a title, a text and tags. One that is
/// not resolved ends when it began.
pub open spec fn annotation(e: AlertHistoryEntry, names: Map<i64, (String, String)>) -> JsonView {
    let (name, severity) = rule_of(e.rule_id, names);
    let tags = seq![
        JsonView::Str("severity:"@ + severity),
        JsonView::Str("rule:"@ + text::decimal_int(e.rule_id as int)),
    ];
    JsonView::Object(
        Map::<Seq<char>, JsonView>::empty().insert(
            "time"@,
            json::integer_json(e.fired_at * 1_000),
        ).insert(
            "timeEnd"@,
            json::integer_json(
                match e.resolved_at {
                    Some(t) => t * 1_000,
                    None => e.fired_at * 1_000,
                },
            ),
        ).insert("title"@, JsonView::Str(name)).insert(
            "text"@,
            JsonView::Str(
                "group="@ + e.group_key@ + " events="@ + text::decimal_int(e.event_count as int)
                    + (if e.silenced {
                    " (silenced)"@
                } else {
                    ""@
                }),
            ),
        ).insert(
            "tags"@,
            JsonView::Array(
                if e.silenced {
                    tags.push(JsonView::Str("silenced"@))
                } else {
                    tags
                },
            ),
        ),
    )
}

/// The columns of a table of alerts.
pub open spec fn history_columns() -> Seq<JsonView> {
    seq![
        events::column("id"@, "string"@),
        events::column("fired_at"@, "time"@),
        events::column("resolved_at"@, "time"@),
        events::column("rule_id"@, "string"@),
        events::column("rule_name"@, "string"@),
        events::column("severity"@, "string"@),
        events::column("group_key"@, "string"@),
        events::column("event_count"@, "number"@),
        events::column("silenced"@, "number"@),
    ]
}

/// The row of an alert in a table.
pub open spec fn history_row(e: AlertHistoryEntry, names: Map<i64, (String, String)>) -> JsonView {
    let (name, severity) = rule_of(e.rule_id, names);
    JsonView::Array(
        seq![
            JsonView::Str(text::decimal_int(e.id as int)),
            json::integer_json(e.fired_at * 1_000),
            resolved_json(e),
            JsonView::Str(text::decimal_int(e.rule_id as int)),
            JsonView::Str(name),
            JsonView::Str(severity),
            JsonView::Str(e.group_key@),
            json::integer_json(e.event_count as int),
            json::integer_json(
                if e.silenced {
                    1
                } else {
                    0
                },
            ),
        ],
    )
}

/// An alert as a JSON object.
pub open spec fn history_object(e: AlertHistoryEntry, names: Map<i64, (String, String)>) -> JsonView {
    let (name, severity) = rule_of(e.rule_id, names);
    JsonView::Object(
        Map::<Seq<char>, JsonView>::empty().insert(
            "id"@,
            JsonView::Str(text::decimal_int(e.id as int)),
        ).insert("fired_at"@, json::integer_json(e.fired_at * 1_000)).insert(
            "resolved_at"@,
            resolved_json(e),
        ).insert("rule_id"@, JsonView::Str(text::decimal_int(e.rule_id as int))).insert(
            "rule_name"@,
            JsonView::Str(name),
        ).insert("severity"@, JsonView::Str(severity)).insert(
            "group_key"@,
            JsonView::Str(e.group_key@),
        ).insert("event_count"@, json::integer_json(e.event_count as int)).insert(
            "silenced"@,
            JsonView::Bool(e.silenced),
        ),
    )
}

/// An alert as an annotation.
fn make_annotation(e: &AlertHistoryEntry, rule_names: &HashMap<i64, (String, String)>) -> (j: Json)
    requires
        tells_time(*e),
    ensures
        j@ == annotation(*e, rule_names@),
        j.wf(),
{
    let (name, severity) = name_rule(e.rule_id, rule_names);
    let time_ms: i64 = e.fired_at * 1_000;
    let time_end_ms: i64 = match e.resolved_at {
        Some(t) => t * 1_000,
        None => time_ms,
    };
    let rule_tag = text::concat2("rule:", text::i64_text(e.rule_id).as_str());
    let mut tags: Vec<Json> = vec![
        Json::Str(text::concat2("severity:", severity.as_str())),
        Json::Str(rule_tag),
    ];
    if e.silenced {
        tags.push(Json::Str("silenced".to_string()));
    }
    let mut line: String = text::concat4(
        "group=",
        e.group_key.as_str(),
        " events=",
        text::i64_text(e.event_count).as_str(),
    );
    if e.silenced {
        line.push_str(" (silenced)");
    } else {
        line.push_str("");
    }
    let mut m: Vec<(String, Json)> = Vec::new();
    proof {
        json::lemma_no_members();
        assert(m@ =~= Seq::<(String, Json)>::empty());
        json::lemma_array_view(tags);
        assert(json::items_wf(tags@));
        let expected = annotation(*e, rule_names@)->Object_0["tags"@]->Array_0;
        assert(json::items_view(tags@) =~= expected);
    }
    json::put(&mut m, "time", json::integer(time_ms));
    json::put(&mut m, "timeEnd", json::integer(time_end_ms));
    json::put(&mut m, "title", Json::Str(name));
    json::put(&mut m, "text", Json::Str(line));
    json::put(&mut m, "tags", Json::Array(tags));
    proof {
        json::lemma_object_view(m);
    }
    Json::Object(m)
}

/// The row of an alert in a table.
fn make_history_row(e: &AlertHistoryEntry, rule_names: &HashMap<i64, (String, String)>) -> (j: Json)
    requires
        tells_time(*e),
    ensures
        j@ == history_row(*e, rule_names@),
        j.wf(),
{
    let (name, severity) = name_rule(e.rule_id, rule_names);
    let silenced: i64 = if e.silenced {
        1
    } else {
        0
    };
    let v: Vec<Json> = vec![
        Json::Str(text::i64_text(e.id)),
        json::integer(e.fired_at * 1_000),
        make_resolved(e),
        Json::Str(text::i64_text(e.rule_id)),
        Json::Str(name),
        Json::Str(severity),
        Json::Str(e.group_key.clone()),
        json::integer(e.event_count),
        json::integer(silenced),
    ];
    proof {
        json::lemma_array_view(v);
        assert(json::items_view(v@) =~= history_row(*e, rule_names@)->Array_0);
        assert(json::items_wf(v@));
    }
    Json::Array(v)
}

/// An alert as a JSON object.
fn make_history_object(e: &AlertHistoryEntry, rule_names: &HashMap<i64, (String, String)>) -> (j:
    Json)
    requires
        tells_time(*e),
    ensures
        j@ == history_object(*e, rule_names@),
        j.wf(),
{
    let (name, severity) = name_rule(e.rule_id, rule_names);
    let mut m: Vec<(String, Json)> = Vec::new();
    proof {
        json::lemma_no_members();
        assert(m@ =~= Seq::<(String, Json)>::empty());
    }
    json::put(&mut m, "id", Json::Str(text::i64_text(e.id)));
    json::put(&mut m, "fired_at", json::integer(e.fired_at * 1_000));
    json::put(&mut m, "resolved_at", make_resolved(e));
    json::put(&mut m, "rule_id", Json::Str(text::i64_text(e.rule_id)));
    json::put(&mut m, "rule_name", Json::Str(name));
    json::put(&mut m, "severity", Json::Str(severity));
    json::put(&mut m, "group_key", Json::Str(e.group_key.clone()));
    json::put(&mut m, "event_count", json::integer(e.event_count));
    json::put(&mut m, "silenced", Json::Bool(e.silenced));
    proof {
        json::lemma_object_view(m);
    }
    Json::Object(m)
}

/// Alerts as a list of Grafana annotations.
pub fn history_as_annotations(
    entries: &Vec<AlertHistoryEntry>,
    rule_names: &HashMap<i64, (String, String)>,
) -> (j: Json)
    requires
        all_tell_time(entries@),
    ensures
        j@ == JsonView::Array(
            entries@.map_values(|e: AlertHistoryEntry| annotation(e, rule_names@)),
        ),
        j.wf(),
{
    let mut out: Vec<Json> = Vec::new();
    let mut i: usize = 0;
    while i < entries.len()
        invariant
            i <= entries@.len(),
            all_tell_time(entries@),
            out@.len() == i,
            json::items_wf(out@),
            forall|k: int|
                0 <= k < i ==> (#[trigger] out@[k])@ == annotation(entries@[k], rule_names@),
        decreases entries@.len() - i,
    {
        out.push(make_annotation(&entries[i], rule_names));
        i = i + 1;
    }
    proof {
        json::lemma_array_view(out);
        assert(json::items_view(out@) =~= entries@.map_values(
            |e: AlertHistoryEntry| annotation(e, rule_names@),
        ));
    }
    Json::Array(out)
}

/// Alerts as a table.
pub fn history_as_table(
    entries: &Vec<AlertHistoryEntry>,
    rule_names: &HashMap<i64, (String, String)>,
) -> (j: Json)
    requires
        all_tell_time(entries@),
    ensures
        j@ == events::table(
            history_columns(),
            entries@.map_values(|e: AlertHistoryEntry| history_row(e, rule_names@)),
        ),
        j.wf(),
{
    let mut out: Vec<Json> = Vec::new();
    let mut i: usize = 0;
    while i < entries.len()
        invariant
            i <= entries@.len(),
            all_tell_time(entries@),
            out@.len() == i,
            json::items_wf(out@),
            forall|k: int|
                0 <= k < i ==> (#[trigger] out@[k])@ == history_row(entries@[k], rule_names@),
        decreases entries@.len() - i,
    {
        out.push(make_history_row(&entries[i], rule_names));
        i = i + 1;
    }
    let columns: Vec<Json> = vec![
        events::make_column("id", "string"),
        events::make_column("fired_at", "time"),
        events::make_column("resolved_at", "time"),
        events::make_column("rule_id", "string"),
        events::make_column("rule_name", "string"),
        events::make_column("severity", "string"),
        events::make_column("group_key", "string"),
        events::make_column("event_count", "number"),
        events::make_column("silenced", "number"),
    ];
    proof {
        assert(json::items_view(columns@) =~= history_columns());
        assert(json::items_view(out@) =~= entries@.map_values(
            |e: AlertHistoryEntry| history_row(e, rule_names@),
        ));
    }
    events::make_table(columns, out)
}

/// Alerts as an array of objects.
pub fn history_as_logs(
    entries: &Vec<AlertHistoryEntry>,
    rule_names: &HashMap<i64, (String, String)>,
) -> (j: Json)
    requires
        all_tell_time(entries@),
    ensures
        j@ == JsonView::Array(
            entries@.map_values(|e: AlertHistoryEntry| history_object(e, rule_names@)),
        ),
        j.wf(),
{
    let mut out: Vec<Json> = Vec::new();
    let mut i: usize = 0;
    while i < entries.len()
        invariant
            i <= entries@.len(),
            all_tell_time(entries@),
            out@.len() == i,
            json::items_wf(out@),
            forall|k: int|
                0 <= k < i ==> (#[trigger] out@[k])@ == history_object(entries@[k], rule_names@),
        decreases entries@.len() - i,
    {
        out.push(make_history_object(&entries[i], rule_names));
        i = i + 1;
    }
    proof {
        json::lemma_array_view(out);
        assert(json::items_view(out@) =~= entries@.map_values(
            |e: AlertHistoryEntry| history_object(e, rule_names@),
        ));
    }
    Json::Array(out)
}

/// What alerts look like in the shape that was asked for: `annotations`, `logs`, or else a
/// table.
pub open spec fn shown(
    entries: Seq<AlertHistoryEntry>,
    names: Map<i64, (String, String)>,
    format: Option<Seq<char>>,
) -> JsonView {
    if format == Some("annotations"@) {
        JsonView::Array(entries.map_values(|e: AlertHistoryEntry| annotation(e, names)))
    } else if format == Some("logs"@) {
        JsonView::Array(entries.map_values(|e: AlertHistoryEntry| history_object(e, names)))
    } else {
        events::table(
            history_columns(),
            entries.map_values(|e: AlertHistoryEntry| history_row(e, names)),
        )
    }
}

/// Alerts in the shape that was asked for.
pub fn show_history(
    entries: &Vec<AlertHistoryEntry>,
    rule_names: &HashMap<i64, (String, String)>,
    format: Option<&str>,
) -> (j: Json)
    requires
        all_tell_time(entries@),
    ensures
        j@ == shown(entries@, rule_names@, text::opt_str(format)),
        j.wf(),
{
    match format {
        Some(f) => if text::same(f, "annotations") {
            history_as_annotations(entries, rule_names)
        } else if text::same(f, "logs") {
            history_as_logs(entries, rule_names)
        } else {
            history_as_table(entries, rule_names)
        },
        None => history_as_table(entries, rule_names),
    }
}

} // verus!
