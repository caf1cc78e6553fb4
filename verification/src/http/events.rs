//! Stored events, as the REST API filters and shows them.

use crate::json::{self, Json, JsonView};
use crate::text;
use crate::timestamp::{self, DateReading, Timestamp};
use vstd::prelude::*;

verus! {

broadcast use vstd::string::group_string_axioms;

/// What was done with a packet.
#[derive(Clone, Copy, PartialEq, Eq, Structural, Debug)]
pub enum Action {
    Drop,
    Log,
}

impl Action {
    /// The word for the action.
    pub open spec fn word(self) -> Seq<char> {
        match self {
            Action::Drop => "drop"@,
            Action::Log => "log"@,
        }
    }

    /// The word for the action.
    pub fn as_str(&self) -> (s: &'static str)
        ensures
            s@ == self.word(),
    {
        match self {
            Action::Drop => "drop",
            Action::Log => "log",
        }
    }
}

/// Which way a packet went.
#[derive(Clone, Copy, PartialEq, Eq, Structural, Debug)]
pub enum Direction {
    Ingress,
    Egress,
}

impl Direction {
    /// The word for the direction.
    pub open spec fn word(self) -> Seq<char> {
        match self {
            Direction::Ingress => "ingress"@,
            Direction::Egress => "egress"@,
        }
    }

    /// The word for the direction.
    pub fn as_str(&self) -> (s: &'static str)
        ensures
            s@ == self.word(),
    {
        match self {
            Direction::Ingress => "ingress",
            Direction::Egress => "egress",
        }
    }
}

/// An event on record.
pub struct StoredEvent {
    pub id: i64,
    pub ts_ns: i64,
    pub node_id: String,
    pub rule_id: i64,
    pub action: Action,
    pub direction: Direction,
    /// The addresses, in their usual notation.
    pub src_ip: String,
    pub dst_ip: String,
    pub sport: i64,
    pub dport: i64,
    pub proto: i64,
    pub pkt_len: i64,
    pub sni: Option<String>,
}

/// What a caller asks of the events.
pub struct EventsQuery {
    /// RFC3339 inclusive lower bound.
    pub since: Option<String>,
    /// RFC3339 exclusive upper bound.
    pub until: Option<String>,
    pub action: Option<String>,
    pub rule_id: Option<i64>,
    pub node_id: Option<String>,
    pub sport: Option<i64>,
    pub dport: Option<i64>,
    /// Numeric IP protocol number (6 = tcp, 17 = udp).
    pub proto: Option<i64>,
    /// SQL LIKE pattern.
    pub sni_like: Option<String>,
    pub limit: Option<i64>,
    pub cursor: Option<i64>,
}

/// Which events are looked for.
pub struct EventFilter {
    pub since_ns: Option<i64>,
    pub until_ns: Option<i64>,
    pub action: Option<Action>,
    pub rule_id: Option<i64>,
    pub node_id: Option<String>,
    pub sport: Option<i64>,
    pub dport: Option<i64>,
    pub proto: Option<i64>,
    pub sni_like: Option<String>,
    pub cursor: Option<i64>,
}

/// How many rows are shown where nobody asks for a number.
pub const DEFAULT_LIMIT: i64 = 100;

/// What a date that was read comes to, as nanoseconds since the Unix epoch, or the error.
pub open spec fn nanos_of(s: Seq<char>, reading: DateReading) -> Result<int, Seq<char>> {
    match reading {
        DateReading::At { secs, nanos } => {
            let total = secs * 1_000_000_000 + nanos;
            if i64::MIN <= total <= i64::MAX {
                Ok(total)
            } else {
                Err("Timestamp out of range: "@ + s)
            }
        },
        DateReading::Refused(e) => Err("Invalid timestamp '"@ + s + "': "@ + e),
    }
}

/// What a date that was read comes to, as seconds since the Unix epoch, or the error.
pub open spec fn secs_of(s: Seq<char>, reading: DateReading) -> Result<int, Seq<char>> {
    match reading {
        DateReading::At { secs, nanos } => Ok(secs),
        DateReading::Refused(e) => Err("Invalid timestamp '"@ + s + "': "@ + e),
    }
}

/// Whether the result is the number or the text of the error.
pub open spec fn gives(r: Result<i64, String>, expected: Result<int, Seq<char>>) -> bool {
    match expected {
        Ok(n) => r matches Ok(v) && v == n,
        Err(e) => r matches Err(m) && m@ == e,
    }
}

/// What a reading that was made is.
pub open spec fn reading_of(r: Result<Timestamp, String>) -> DateReading {
    match r {
        Ok(t) => DateReading::At { secs: t.secs as int, nanos: t.nanos as int },
        Err(e) => DateReading::Refused(e@),
    }
}

/// The nanoseconds since the Unix epoch of a date that was read from `s`.
pub fn date_nanos(s: &str, read: Result<Timestamp, String>) -> (r: Result<i64, String>)
    ensures
        gives(r, nanos_of(s@, reading_of(read))),
{
    match read {
        Ok(t) => {
            let total: i128 = t.secs as i128 * 1_000_000_000 + t.nanos as i128;
            if i64::MIN as i128 <= total && total <= i64::MAX as i128 {
                Ok(total as i64)
            } else {
                Err(text::concat2("Timestamp out of range: ", s))
            }
        },
        Err(e) => Err(text::concat4("Invalid timestamp '", s, "': ", e.as_str())),
    }
}

/// The seconds since the Unix epoch of a date that was read from `s`.
pub fn date_secs(s: &str, read: Result<Timestamp, String>) -> (r: Result<i64, String>)
    ensures
        gives(r, secs_of(s@, reading_of(read))),
{
    match read {
        Ok(t) => Ok(t.secs),
        Err(e) => Err(text::concat4("Invalid timestamp '", s, "': ", e.as_str())),
    }
}

/// The nanoseconds since the Unix epoch that an RFC 3339 text names.
pub fn parse_rfc3339_ns(s: &str) -> (r: Result<i64, String>)
    ensures
        gives(r, nanos_of(s@, timestamp::rfc3339_reading(s@))),
{
    date_nanos(s, timestamp::parse_rfc3339(s))
}

/// The seconds since the Unix epoch that an RFC 3339 text names.
pub fn parse_rfc3339_s(s: &str) -> (r: Result<i64, String>)
    ensures
        gives(r, secs_of(s@, timestamp::rfc3339_reading(s@))),
{
    date_secs(s, timestamp::parse_rfc3339(s))
}

/// The action that a word stands for.
pub fn parse_action(s: &str) -> (r: Result<Action, String>)
    ensures
        match r {
            Ok(a) => s@ == a.word(),
            Err(e) => s@ != "drop"@ && s@ != "log"@ && e@ == "Unknown action '"@ + s@
                + "' (expected drop|log)"@,
        },
{
    if text::same(s, "drop") {
        Ok(Action::Drop)
    } else if text::same(s, "log") {
        Ok(Action::Log)
    } else {
        Err(text::concat3("Unknown action '", s, "' (expected drop|log)"))
    }
}

/// The error of a bound in time, if it is given and cannot be used.
pub open spec fn bound_error(bound: Option<String>) -> Option<Seq<char>> {
    match bound {
        Some(s) => match nanos_of(s@, timestamp::rfc3339_reading(s@)) {
            Ok(_) => None,
            Err(e) => Some(e),
        },
        None => None,
    }
}

/// Whether the number is the bound in time that was given, if one was.
pub open spec fn is_bound(n: Option<i64>, bound: Option<String>) -> bool {
    match bound {
        Some(s) => n matches Some(v) && nanos_of(s@, timestamp::rfc3339_reading(s@)) == Ok::<
            int,
            Seq<char>,
        >(v as int),
        None => n is None,
    }
}

/// The number of a bound in time that may be given.
fn read_bound(bound: &Option<String>) -> (r: Result<Option<i64>, String>)
    ensures
        match bound_error(*bound) {
            Some(e) => r matches Err(m) && m@ == e,
            None => r matches Ok(n) && is_bound(n, *bound),
        },
{
    match bound {
        Some(s) => match parse_rfc3339_ns(s.as_str()) {
            Ok(n) => Ok(Some(n)),
            Err(e) => Err(e),
        },
        None => Ok(None),
    }
}

/// Whether an action that may be given is one.
pub open spec fn action_known(action: Option<String>) -> bool {
    action matches Some(s) ==> s@ == "drop"@ || s@ == "log"@
}

/// The text of a field that may be given.
pub fn copy_opt(o: &Option<String>) -> (r: Option<String>)
    ensures
        r == *o,
{
    match o {
        Some(s) => Some(s.clone()),
        None => None,
    }
}

/// Whether a filter looks for the events that a query asks for.
pub open spec fn looks_for(q: EventsQuery, f: EventFilter) -> bool {
    &&& is_bound(f.since_ns, q.since)
    &&& is_bound(f.until_ns, q.until)
    &&& match q.action {
        Some(a) => f.action matches Some(x) && x.word() == a@,
        None => f.action is None,
    }
    &&& f.rule_id == q.rule_id
    &&& f.node_id == q.node_id
    &&& f.sport == q.sport
    &&& f.dport == q.dport
    &&& f.proto == q.proto
    &&& f.sni_like == q.sni_like
    &&& f.cursor == q.cursor
}

/// Which events a query looks for; a bound or an action that cannot be used is refused.
pub fn build_filter(q: &EventsQuery) -> (r: Result<EventFilter, String>)
    ensures
        r matches Ok(f) ==> looks_for(*q, f),
        match bound_error(q.since) {
            Some(e) => r matches Err(m) && m@ == e,
            None => match bound_error(q.until) {
                Some(e) => r matches Err(m) && m@ == e,
                None => if action_known(q.action) {
                    &&& r matches Ok(f)
                    &&& is_bound(f.since_ns, q.since)
                    &&& is_bound(f.until_ns, q.until)
                    &&& match q.action {
                        Some(a) => f.action matches Some(x) && x.word() == a@,
                        None => f.action is None,
                    }
                    &&& f.rule_id == q.rule_id
                    &&& f.node_id == q.node_id
                    &&& f.sport == q.sport
                    &&& f.dport == q.dport
                    &&& f.proto == q.proto
                    &&& f.sni_like == q.sni_like
                    &&& f.cursor == q.cursor
                } else {
                    r matches Err(m) && m@ == "Unknown action '"@ + q.action->0@
                        + "' (expected drop|log)"@
                },
            },
        },
{
    let since_ns = match read_bound(&q.since) {
        Ok(n) => n,
        Err(e) => {
            return Err(e);
        },
    };
    let until_ns = match read_bound(&q.until) {
        Ok(n) => n,
        Err(e) => {
            return Err(e);
        },
    };
    let action: Option<Action> = match &q.action {
        Some(a) => match parse_action(a.as_str()) {
            Ok(x) => Some(x),
            Err(e) => {
                return Err(e);
            },
        },
        None => None,
    };
    Ok(
        EventFilter {
            since_ns,
            until_ns,
            action,
            rule_id: q.rule_id,
            node_id: copy_opt(&q.node_id),
            sport: q.sport,
            dport: q.dport,
            proto: q.proto,
            sni_like: copy_opt(&q.sni_like),
            cursor: q.cursor,
        },
    )
}

/// The milliseconds in nanoseconds, without what is left over.
pub open spec fn millis(ns: int) -> int {
    if ns >= 0 {
        ns / 1_000_000
    } else {
        -((-ns) / 1_000_000)
    }
}

/// The milliseconds in nanoseconds, without what is left over.
fn to_millis(ns: i64) -> (ms: i64)
    ensures
        ms == millis(ns as int),
{
    if ns >= 0 {
        ns / 1_000_000
    } else {
        let n: i128 = -(ns as i128);
        let q: i128 = n / 1_000_000;
        (-q) as i64
    }
}

/// The JSON of a column: its heading and the type of its values.
pub open spec fn column(heading: Seq<char>, kind: Seq<char>) -> JsonView {
    JsonView::Object(
        Map::<Seq<char>, JsonView>::empty().insert("text"@, JsonView::Str(heading)).insert(
            "type"@,
            JsonView::Str(kind),
        ),
    )
}

/// The JSON of a column.
pub(crate) fn make_column(heading: &str, kind: &str) -> (j: Json)
    ensures
        j@ == column(heading@, kind@),
        j.wf(),
{
    let mut m: Vec<(String, Json)> = Vec::new();
    proof {
        json::lemma_no_members();
        assert(m@ =~= Seq::<(String, Json)>::empty());
    }
    json::put(&mut m, "text", Json::Str(heading.to_string()));
    json::put(&mut m, "type", Json::Str(kind.to_string()));
    proof {
        json::lemma_object_view(m);
    }
    Json::Object(m)
}

/// The JSON of a table.
pub open spec fn table(columns: Seq<JsonView>, rows: Seq<JsonView>) -> JsonView {
    JsonView::Object(
        Map::<Seq<char>, JsonView>::empty().insert("columns"@, JsonView::Array(columns)).insert(
            "rows"@,
            JsonView::Array(rows),
        ),
    )
}

/// The JSON of a table.
pub(crate) fn make_table(columns: Vec<Json>, rows: Vec<Json>) -> (j: Json)
    requires
        json::items_wf(columns@),
        json::items_wf(rows@),
    ensures
        j@ == table(json::items_view(columns@), json::items_view(rows@)),
        j.wf(),
{
    let mut m: Vec<(String, Json)> = Vec::new();
    proof {
        json::lemma_no_members();
        assert(m@ =~= Seq::<(String, Json)>::empty());
        json::lemma_array_view(columns);
        json::lemma_array_view(rows);
    }
    json::put(&mut m, "columns", Json::Array(columns));
    json::put(&mut m, "rows", Json::Array(rows));
    proof {
        json::lemma_object_view(m);
    }
    Json::Object(m)
}

/// The columns of a table of events.
pub open spec fn event_columns() -> Seq<JsonView> {
    seq![
        column("id"@, "string"@),
        column("timestamp"@, "time"@),
        column("node_id"@, "string"@),
        column("rule_id"@, "string"@),
        column("action"@, "string"@),
        column("direction"@, "string"@),
        column("src_ip"@, "string"@),
        column("dst_ip"@, "string"@),
        column("sport"@, "number"@),
        column("dport"@, "number"@),
        column("proto"@, "number"@),
        column("pkt_len"@, "number"@),
        column("sni"@, "string"@),
    ]
}

/// The row of an event in a table. Grafana wants milliseconds.
pub open spec fn event_row(e: StoredEvent) -> JsonView {
    JsonView::Array(
        seq![
            JsonView::Str(text::decimal_int(e.id as int)),
            json::integer_json(millis(e.ts_ns as int)),
            JsonView::Str(e.node_id@),
            JsonView::Str(text::decimal_int(e.rule_id as int)),
            JsonView::Str(e.action.word()),
            JsonView::Str(e.direction.word()),
            JsonView::Str(e.src_ip@),
            JsonView::Str(e.dst_ip@),
            json::integer_json(e.sport as int),
            json::integer_json(e.dport as int),
            json::integer_json(e.proto as int),
            json::integer_json(e.pkt_len as int),
            JsonView::Str(
                match e.sni {
                    Some(s) => s@,
                    None => ""@,
                },
            ),
        ],
    )
}

/// An event as a JSON object.
pub open spec fn event_object(e: StoredEvent) -> JsonView {
    JsonView::Object(
        Map::<Seq<char>, JsonView>::empty().insert(
            "id"@,
            JsonView::Str(text::decimal_int(e.id as int)),
        ).insert("timestamp"@, json::integer_json(millis(e.ts_ns as int))).insert(
            "node_id"@,
            JsonView::Str(e.node_id@),
        ).insert("rule_id"@, JsonView::Str(text::decimal_int(e.rule_id as int))).insert(
            "action"@,
            JsonView::Str(e.action.word()),
        ).insert("direction"@, JsonView::Str(e.direction.word())).insert(
            "src_ip"@,
            JsonView::Str(e.src_ip@),
        ).insert("dst_ip"@, JsonView::Str(e.dst_ip@)).insert(
            "sport"@,
            json::integer_json(e.sport as int),
        ).insert("dport"@, json::integer_json(e.dport as int)).insert(
            "proto"@,
            json::integer_json(e.proto as int),
        ).insert("pkt_len"@, json::integer_json(e.pkt_len as int)).insert(
            "sni"@,
            match e.sni {
                Some(s) => JsonView::Str(s@),
                None => JsonView::Null,
            },
        ),
    )
}

/// The columns of a table of events.
fn make_event_columns() -> (v: Vec<Json>)
    ensures
        json::items_view(v@) == event_columns(),
        json::items_wf(v@),
{
    let v: Vec<Json> = vec![
        make_column("id", "string"),
        make_column("timestamp", "time"),
        make_column("node_id", "string"),
        make_column("rule_id", "string"),
        make_column("action", "string"),
        make_column("direction", "string"),
        make_column("src_ip", "string"),
        make_column("dst_ip", "string"),
        make_column("sport", "number"),
        make_column("dport", "number"),
        make_column("proto", "number"),
        make_column("pkt_len", "number"),
        make_column("sni", "string"),
    ];
    assert(json::items_view(v@) =~= event_columns());
    v
}

/// The row of an event in a table.
fn make_event_row(e: &StoredEvent) -> (j: Json)
    ensures
        j@ == event_row(*e),
        j.wf(),
{
    let sni: String = match &e.sni {
        Some(s) => s.clone(),
        None => "".to_string(),
    };
    let v: Vec<Json> = vec![
        Json::Str(text::i64_text(e.id)),
        json::integer(to_millis(e.ts_ns)),
        Json::Str(e.node_id.clone()),
        Json::Str(text::i64_text(e.rule_id)),
        Json::Str(e.action.as_str().to_string()),
        Json::Str(e.direction.as_str().to_string()),
        Json::Str(e.src_ip.clone()),
        Json::Str(e.dst_ip.clone()),
        json::integer(e.sport),
        json::integer(e.dport),
        json::integer(e.proto),
        json::integer(e.pkt_len),
        Json::Str(sni),
    ];
    proof {
        json::lemma_array_view(v);
        assert(json::items_view(v@) =~= event_row(*e)->Array_0);
        assert(json::items_wf(v@));
    }
    Json::Array(v)
}

/// An event as a JSON object.
fn make_event_object(e: &StoredEvent) -> (j: Json)
    ensures
        j@ == event_object(*e),
        j.wf(),
{
    let sni: Json = match &e.sni {
        Some(s) => Json::Str(s.clone()),
        None => Json::Null,
    };
    let mut m: Vec<(String, Json)> = Vec::new();
    proof {
        json::lemma_no_members();
        assert(m@ =~= Seq::<(String, Json)>::empty());
    }
    json::put(&mut m, "id", Json::Str(text::i64_text(e.id)));
    json::put(&mut m, "timestamp", json::integer(to_millis(e.ts_ns)));
    json::put(&mut m, "node_id", Json::Str(e.node_id.clone()));
    json::put(&mut m, "rule_id", Json::Str(text::i64_text(e.rule_id)));
    json::put(&mut m, "action", Json::Str(e.action.as_str().to_string()));
    json::put(&mut m, "direction", Json::Str(e.direction.as_str().to_string()));
    json::put(&mut m, "src_ip", Json::Str(e.src_ip.clone()));
    json::put(&mut m, "dst_ip", Json::Str(e.dst_ip.clone()));
    json::put(&mut m, "sport", json::integer(e.sport));
    json::put(&mut m, "dport", json::integer(e.dport));
    json::put(&mut m, "proto", json::integer(e.proto));
    json::put(&mut m, "pkt_len", json::integer(e.pkt_len));
    json::put(&mut m, "sni", sni);
    proof {
        json::lemma_object_view(m);
    }
    Json::Object(m)
}

/// Events as a table, in the shape that Grafana's Infinity source reads.
pub fn rows_as_table(rows: &Vec<StoredEvent>) -> (j: Json)
    ensures
        j@ == table(event_columns(), rows@.map_values(|e: StoredEvent| event_row(e))),
        j.wf(),
{
    let mut out: Vec<Json> = Vec::new();
    let mut i: usize = 0;
    while i < rows.len()
        invariant
            i <= rows@.len(),
            out@.len() == i,
            json::items_wf(out@),
            forall|k: int| 0 <= k < i ==> (#[trigger] out@[k])@ == event_row(rows@[k]),
        decreases rows@.len() - i,
    {
        out.push(make_event_row(&rows[i]));
        i = i + 1;
    }
    assert(json::items_view(out@) =~= rows@.map_values(|e: StoredEvent| event_row(e)));
    make_table(make_event_columns(), out)
}

/// Events as an array of objects, suitable for Grafana's "Logs" panel.
pub fn rows_as_logs(rows: &Vec<StoredEvent>) -> (j: Json)
    ensures
        j@ == JsonView::Array(rows@.map_values(|e: StoredEvent| event_object(e))),
        j.wf(),
{
    let mut out: Vec<Json> = Vec::new();
    let mut i: usize = 0;
    while i < rows.len()
        invariant
            i <= rows@.len(),
            out@.len() == i,
            json::items_wf(out@),
            forall|k: int| 0 <= k < i ==> (#[trigger] out@[k])@ == event_object(rows@[k]),
        decreases rows@.len() - i,
    {
        out.push(make_event_object(&rows[i]));
        i = i + 1;
    }
    proof {
        json::lemma_array_view(out);
        assert(json::items_view(out@) =~= rows@.map_values(|e: StoredEvent| event_object(e)));
    }
    Json::Array(out)
}

/// Events in the shape that was asked for: `logs`, or else a table.
pub fn show_events(rows: &Vec<StoredEvent>, format: Option<&str>) -> (j: Json)
    ensures
        j@ == (if text::opt_str(format) == Some("logs"@) {
            JsonView::Array(rows@.map_values(|e: StoredEvent| event_object(e)))
        } else {
            table(event_columns(), rows@.map_values(|e: StoredEvent| event_row(e)))
        }),
        j.wf(),
{
    match format {
        Some(f) => if text::same(f, "logs") {
            rows_as_logs(rows)
        } else {
            rows_as_table(rows)
        },
        None => rows_as_table(rows),
    }
}

/// By what events are counted.
#[derive(Clone, Copy, PartialEq, Eq, Structural, Debug)]
pub enum GroupBy {
    RuleId,
    Action,
    NodeId,
    SrcIp,
    DstIp,
    Minute,
    Hour,
}

impl GroupBy {
    /// The word for it.
    pub open spec fn word(self) -> Seq<char> {
        match self {
            GroupBy::RuleId => "rule_id"@,
            GroupBy::Action => "action"@,
            GroupBy::NodeId => "node_id"@,
            GroupBy::SrcIp => "src_ip"@,
            GroupBy::DstIp => "dst_ip"@,
            GroupBy::Minute => "minute"@,
            GroupBy::Hour => "hour"@,
        }
    }

    /// The milliseconds in the unit of a bucket in time; one where buckets are no time.
    pub open spec fn unit(self) -> int {
        match self {
            GroupBy::Minute => 60_000,
            GroupBy::Hour => 3_600_000,
            _ => 1,
        }
    }
}

/// By what events are counted, if a word names it.
pub fn parse_group_by(s: &str) -> (r: Result<GroupBy, String>)
    ensures
        match r {
            Ok(g) => s@ == g.word(),
            Err(e) => (forall|g: GroupBy| s@ != #[trigger] g.word()) && e@
                == "Unknown group_by '"@ + s@ + "'"@,
        },
{
    if text::same(s, "rule_id") {
        Ok(GroupBy::RuleId)
    } else if text::same(s, "action") {
        Ok(GroupBy::Action)
    } else if text::same(s, "node_id") {
        Ok(GroupBy::NodeId)
    } else if text::same(s, "src_ip") {
        Ok(GroupBy::SrcIp)
    } else if text::same(s, "dst_ip") {
        Ok(GroupBy::DstIp)
    } else if text::same(s, "minute") {
        Ok(GroupBy::Minute)
    } else if text::same(s, "hour") {
        Ok(GroupBy::Hour)
    } else {
        Err(text::concat3("Unknown group_by '", s, "'"))
    }
}

/// How many events there are with one key.
pub struct Bucket {
    pub key: String,
    pub count: i64,
}

/// The number of a bucket in time; zero where its key is none.
pub open spec fn bucket_index(b: Bucket) -> int {
    match text::parse_int(b.key@) {
        Some(n) => n,
        None => 0,
    }
}

/// Whether the time of each bucket can be told in milliseconds.
pub open spec fn tells_time(buckets: Seq<Bucket>, g: GroupBy) -> bool {
    forall|i: int|
        0 <= i < buckets.len() ==> i64::MIN <= bucket_index(#[trigger] buckets[i]) * g.unit()
            <= i64::MAX
}

/// The datapoint of a bucket: how many, and when.
pub open spec fn datapoint(b: Bucket, g: GroupBy) -> JsonView {
    JsonView::Array(
        seq![json::integer_json(b.count as int), json::integer_json(bucket_index(b) * g.unit())],
    )
}

/// The row of a bucket in a table.
pub open spec fn bucket_row(b: Bucket) -> JsonView {
    JsonView::Array(seq![JsonView::Str(b.key@), json::integer_json(b.count as int)])
}

/// Counts as a table.
pub open spec fn counts_table(buckets: Seq<Bucket>, group_by: Seq<char>) -> JsonView {
    table(
        seq![column(group_by, "string"@), column("count"@, "number"@)],
        buckets.map_values(|b: Bucket| bucket_row(b)),
    )
}

/// Counts as one series of datapoints.
pub open spec fn counts_series(buckets: Seq<Bucket>, g: GroupBy, group_by: Seq<char>) -> JsonView {
    JsonView::Array(
        seq![
            JsonView::Object(
                Map::<Seq<char>, JsonView>::empty().insert(
                    "target"@,
                    JsonView::Str(group_by),
                ).insert(
                    "datapoints"@,
                    JsonView::Array(buckets.map_values(|b: Bucket| datapoint(b, g))),
                ),
            ),
        ],
    )
}

/// The datapoint of a bucket. For time buckets (minute/hour) the key is the bucket index
/// in those units; Grafana wants milliseconds.
fn make_datapoint(b: &Bucket, g: GroupBy) -> (j: Json)
    requires
        i64::MIN <= bucket_index(*b) * g.unit() <= i64::MAX,
    ensures
        j@ == datapoint(*b, g),
        j.wf(),
{
    let unit: i64 = match g {
        GroupBy::Minute => 60_000,
        GroupBy::Hour => 3_600_000,
        _ => 1,
    };
    let index: i64 = match text::parse_i64(&text::chars_of(b.key.as_str())) {
        Some(n) => n,
        None => 0,
    };
    let ts_ms: i64 = index * unit;
    let v: Vec<Json> = vec![json::integer(b.count), json::integer(ts_ms)];
    proof {
        json::lemma_array_view(v);
        assert(json::items_view(v@) =~= datapoint(*b, g)->Array_0);
        assert(json::items_wf(v@));
    }
    Json::Array(v)
}

/// The row of a bucket in a table.
fn make_bucket_row(b: &Bucket) -> (j: Json)
    ensures
        j@ == bucket_row(*b),
        j.wf(),
{
    let v: Vec<Json> = vec![Json::Str(b.key.clone()), json::integer(b.count)];
    proof {
        json::lemma_array_view(v);
        assert(json::items_view(v@) =~= bucket_row(*b)->Array_0);
        assert(json::items_wf(v@));
    }
    Json::Array(v)
}

/// Counts as one series of datapoints.
pub fn counts_as_series(buckets: &Vec<Bucket>, g: GroupBy, group_by: &str) -> (j: Json)
    requires
        tells_time(buckets@, g),
    ensures
        j@ == counts_series(buckets@, g, group_by@),
        j.wf(),
{
    let mut out: Vec<Json> = Vec::new();
    let mut i: usize = 0;
    while i < buckets.len()
        invariant
            i <= buckets@.len(),
            tells_time(buckets@, g),
            out@.len() == i,
            json::items_wf(out@),
            forall|k: int| 0 <= k < i ==> (#[trigger] out@[k])@ == datapoint(buckets@[k], g),
        decreases buckets@.len() - i,
    {
        out.push(make_datapoint(&buckets[i], g));
        i = i + 1;
    }
    let mut m: Vec<(String, Json)> = Vec::new();
    proof {
        json::lemma_no_members();
        assert(m@ =~= Seq::<(String, Json)>::empty());
        json::lemma_array_view(out);
        assert(json::items_view(out@) =~= buckets@.map_values(|b: Bucket| datapoint(b, g)));
    }
    json::put(&mut m, "target", Json::Str(group_by.to_string()));
    json::put(&mut m, "datapoints", Json::Array(out));
    proof {
        json::lemma_object_view(m);
    }
    let v: Vec<Json> = vec![Json::Object(m)];
    proof {
        json::lemma_array_view(v);
        assert(json::items_view(v@) =~= counts_series(buckets@, g, group_by@)->Array_0);
        assert(json::items_wf(v@));
    }
    Json::Array(v)
}

/// Counts as a table.
pub fn counts_as_table(buckets: &Vec<Bucket>, group_by: &str) -> (j: Json)
    ensures
        j@ == counts_table(buckets@, group_by@),
        j.wf(),
{
    let mut out: Vec<Json> = Vec::new();
    let mut i: usize = 0;
    while i < buckets.len()
        invariant
            i <= buckets@.len(),
            out@.len() == i,
            json::items_wf(out@),
            forall|k: int| 0 <= k < i ==> (#[trigger] out@[k])@ == bucket_row(buckets@[k]),
        decreases buckets@.len() - i,
    {
        out.push(make_bucket_row(&buckets[i]));
        i = i + 1;
    }
    let columns: Vec<Json> = vec![make_column(group_by, "string"), make_column("count", "number")];
    proof {
        assert(json::items_view(columns@) =~= seq![
            column(group_by@, "string"@),
            column("count"@, "number"@),
        ]);
        assert(json::items_view(out@) =~= buckets@.map_values(|b: Bucket| bucket_row(b)));
    }
    make_table(columns, out)
}

/// Counts in the shape that was asked for: `timeseries`, or else a table.
pub fn show_counts(buckets: &Vec<Bucket>, g: GroupBy, group_by: &str, format: Option<&str>) -> (j:
    Json)
    requires
        text::opt_str(format) == Some("timeseries"@) ==> tells_time(buckets@, g),
    ensures
        j@ == (if text::opt_str(format) == Some("timeseries"@) {
            counts_series(buckets@, g, group_by@)
        } else {
            counts_table(buckets@, group_by@)
        }),
        j.wf(),
{
    match format {
        Some(f) => if text::same(f, "timeseries") {
            counts_as_series(buckets, g, group_by)
        } else {
            counts_as_table(buckets, group_by)
        },
        None => counts_as_table(buckets, group_by),
    }
}

} // verus!
