//! Minimal Prometheus text exposition parser.
//!
//! Extracts individual counter values from raw Prometheus text by matching
//! metric name and a set of label key=value pairs.  Only the subset of the
//! format used by the policy-engine metrics endpoint is handled.

pub mod laws;

use crate::text;
use vstd::prelude::*;

verus! {

broadcast use vstd::string::group_string_axioms;

/// Whether the line carries a sample: it is neither blank nor a comment.
pub open spec fn is_sample(line: Seq<char>) -> bool {
    text::trim(line).len() > 0 && text::trim(line)[0] != '#'
}

/// The text `key="value"` by which a label stands in a label set.
pub open spec fn label_text(key: Seq<char>, value: Seq<char>) -> Seq<char> {
    key + "=\""@ + value + "\""@
}

/// Whether the label set holds the label, as a substring.
pub open spec fn has_label(label_set: Seq<char>, key: Seq<char>, value: Seq<char>) -> bool {
    text::occurs(label_set, label_text(key, value))
}

/// Whether the label set holds every one of the labels.
pub open spec fn has_labels(label_set: Seq<char>, labels: Seq<(&str, &str)>) -> bool {
    forall|i: int| 0 <= i < labels.len() ==> has_label(label_set, (#[trigger] labels[i]).0@, labels[i].1@)
}

/// The part of a line without a label set that stands before its first space.
pub open spec fn bare_name(line: Seq<char>) -> Seq<char> {
    match text::find(line, ' ') {
        Some(i) => line.take(i),
        None => line,
    }
}

/// The part of a line without a label set that stands after its first space.
pub open spec fn bare_value(line: Seq<char>) -> Seq<char> {
    match text::find(line, ' ') {
        Some(i) => line.skip(i + 1),
        None => Seq::empty(),
    }
}

/// The counter value with which a text starts: its first word as a `u64`.
pub open spec fn counter_value(s: Seq<char>) -> Option<nat> {
    text::parse_nat(text::first_word(s), u64::MAX as nat)
}

/// What the first line of `ls` that answers the question gives, or `Some(None)`
/// when none does. A line with an opening brace and no closing brace answers
/// nothing. The outer `None` stands for a line whose first closing brace
/// comes before its first opening brace: such a text has no reading.
pub open spec fn scan_counter(
    ls: Seq<Seq<char>>,
    name: Seq<char>,
    labels: Seq<(&str, &str)>,
) -> Option<Option<nat>>
    decreases ls.len(),
{
    if ls.len() == 0 {
        Some(None)
    } else {
        let line = text::trim(ls[0]);
        let later = scan_counter(ls.skip(1), name, labels);
        if !is_sample(ls[0]) {
            later
        } else {
            match (text::find(line, '{'), text::find(line, '}')) {
                (Some(_), None) => later,
                (Some(open), Some(close)) => if close < open {
                    None
                } else if line.take(open) == name && has_labels(
                    line.subrange(open + 1, close),
                    labels,
                ) {
                    Some(counter_value(line.skip(close + 1)))
                } else {
                    later
                },
                (None, _) => if bare_name(line) == name && labels.len() == 0 {
                    Some(counter_value(bare_value(line)))
                } else {
                    later
                },
            }
        }
    }
}

/// The counter that `scan_counter` finds in a text.
pub open spec fn counter_in(
    text: Seq<char>,
    name: Seq<char>,
    labels: Seq<(&str, &str)>,
) -> Option<Option<nat>> {
    scan_counter(text::lines(text), name, labels)
}

/// Match key="value" anywhere in the label set.
fn label_matches(label_set: &Vec<char>, key: &str, value: &str) -> (r: bool)
    ensures
        r == has_label(label_set@, key@, value@),
{
    let pattern = text::concat4(key, "=\"", value, "\"");
    let pattern = text::chars_of(pattern.as_str());
    let found = text::find_text(label_set, &pattern);
    proof {
        if let Some(i) = found {
            assert(text::occurs_at(label_set@, pattern@, i as int));
        }
    }
    found.is_some()
}

/// Whether the label set holds every one of the labels.
fn labels_match(label_set: &Vec<char>, labels: &[(&str, &str)]) -> (r: bool)
    ensures
        r == has_labels(label_set@, labels@),
{
    let mut i: usize = 0;
    while i < labels.len()
        invariant
            i <= labels@.len(),
            forall|j: int|
                0 <= j < i ==> has_label(label_set@, (#[trigger] labels@[j]).0@, labels@[j].1@),
        decreases labels@.len() - i,
    {
        let (key, value) = labels[i];
        if !label_matches(label_set, key, value) {
            assert(!has_label(label_set@, labels@[i as int].0@, labels@[i as int].1@));
            return false;
        }
        i = i + 1;
    }
    true
}

/// The counter value with which the rest of a line starts.
fn leading_value(v: &Vec<char>) -> (r: Option<u64>)
    ensures
        match r {
            Some(n) => counter_value(v@) == Some(n as nat),
            None => counter_value(v@) is None,
        },
{
    text::parse_u64(&text::take_first_word(v))
}

/// Splits a line without a label set at its first space.
fn split_bare(line: &Vec<char>) -> (r: (Vec<char>, Vec<char>))
    ensures
        r.0@ == bare_name(line@),
        r.1@ == bare_value(line@),
{
    match text::find_char(line, ' ') {
        Some(i) => {
            let rest = text::slice(line, i + 1, line.len());
            assert(line@.subrange(i + 1, line@.len() as int) =~= line@.skip(i + 1));
            assert(line@.subrange(0, i as int) =~= line@.take(i as int));
            (text::slice(line, 0, i), rest)
        },
        None => {
            assert(line@.subrange(0, line@.len() as int) =~= line@);
            (text::slice(line, 0, line.len()), Vec::new())
        },
    }
}

/// Extract a counter value from raw Prometheus exposition text.
///
/// Returns `None` when no line matches both the metric name and all of the
/// required labels, or when the matched value cannot be parsed as `u64`.
pub fn parse_counter(text: &str, metric_name: &str, labels: &[(&str, &str)]) -> (r: Option<u64>)
    requires
        counter_in(text@, metric_name@, labels@) is Some,
    ensures
        match r {
            Some(n) => counter_in(text@, metric_name@, labels@) == Some(Some(n as nat)),
            None => counter_in(text@, metric_name@, labels@) == Some(None::<nat>),
        },
{
    let name = text::chars_of(metric_name);
    let ls = text::split_lines(&text::chars_of(text));
    let ghost all = text::lines(text@);
    let mut i: usize = 0;
    assert(all.skip(0) =~= all);
    while i < ls.len()
        invariant
            i <= ls@.len(),
            name@ == metric_name@,
            all == text::lines(text@),
            text::char_views(ls@) == all,
            counter_in(text@, metric_name@, labels@) == scan_counter(
                all.skip(i as int),
                name@,
                labels@,
            ),
            counter_in(text@, metric_name@, labels@) is Some,
        decreases ls@.len() - i,
    {
        let ghost rest = all.skip(i as int);
        assert(rest[0] == ls@[i as int]@);
        assert(rest.skip(1) =~= all.skip(i + 1));
        let line = text::trimmed(&ls[i]);
        i = i + 1;
        if line.len() == 0 || line[0] == '#' {
            continue ;
        }
        match text::find_char(&line, '{') {
            Some(open) => {
                match text::find_char(&line, '}') {
                    None => {
                        continue ;
                    },
                    Some(close) => {
                        proof {
                            text::lemma_find(line@, '{');
                            text::lemma_find(line@, '}');
                        }
                        assert(open < close);
                        let head = text::slice(&line, 0, open);
                        assert(head@ =~= line@.take(open as int));
                        let label_set = text::slice(&line, open + 1, close);
                        if text::same_chars(&head, &name) && labels_match(&label_set, labels) {
                            let tail = text::slice(&line, close + 1, line.len());
                            assert(tail@ =~= line@.skip(close + 1));
                            return leading_value(&tail);
                        }
                    },
                }
            },
            None => {
                let (head, tail) = split_bare(&line);
                if text::same_chars(&head, &name) && labels.len() == 0 {
                    return leading_value(&tail);
                }
            },
        }
    }
    None
}

/// What one line adds to the total of the metric.
pub open spec fn line_amount(line: Seq<char>, name: Seq<char>) -> nat {
    let l = text::trim(line);
    if !is_sample(line) {
        0
    } else {
        let parts = match (text::find(l, '{'), text::find(l, '}')) {
            (Some(open), Some(close)) => Some((l.take(open), l.skip(close + 1))),
            (Some(_), None) => None,
            (None, _) => Some((bare_name(l), bare_value(l))),
        };
        match parts {
            Some((head, tail)) => match counter_value(tail) {
                Some(n) => if head == name {
                    n
                } else {
                    0
                },
                None => 0,
            },
            None => 0,
        }
    }
}

/// The sum of what the lines add to the total of the metric.
pub open spec fn lines_amount(ls: Seq<Seq<char>>, name: Seq<char>) -> nat
    decreases ls.len(),
{
    if ls.len() == 0 {
        0
    } else {
        lines_amount(ls.drop_last(), name) + line_amount(ls.last(), name)
    }
}

/// The total of the metric in a text; a sum beyond `u64` stays at its greatest value.
pub open spec fn total_of(text: Seq<char>, name: Seq<char>) -> int {
    vstd::math::min(lines_amount(text::lines(text), name) as int, u64::MAX as int)
}

/// What one line adds to the total of the metric.
fn amount_of(raw: &Vec<char>, name: &Vec<char>) -> (n: u64)
    ensures
        n == line_amount(raw@, name@),
{
    let line = text::trimmed(raw);
    if line.len() == 0 || line[0] == '#' {
        return 0;
    }
    let (head, tail) = match text::find_char(&line, '{') {
        Some(open) => match text::find_char(&line, '}') {
            None => {
                return 0;
            },
            Some(close) => {
                let head = text::slice(&line, 0, open);
                let tail = text::slice(&line, close + 1, line.len());
                assert(head@ =~= line@.take(open as int));
                assert(tail@ =~= line@.skip(close + 1));
                (head, tail)
            },
        },
        None => split_bare(&line),
    };
    if !text::same_chars(&head, name) {
        return 0;
    }
    match leading_value(&tail) {
        Some(n) => n,
        None => 0,
    }
}

/// Sum every counter line matching `metric_name`, regardless of its label set.
///
/// Used for fleet-wide rollups where per-label breakdowns (interface,
/// direction, …) are collapsed into a single total.  Lines whose value cannot
/// be parsed as `u64` are skipped.  Returns `0` when nothing matches; a sum
/// beyond `u64` stays at its greatest value.
pub fn sum_counter(text: &str, metric_name: &str) -> (total: u64)
    ensures
        total == total_of(text@, metric_name@),
{
    let name = text::chars_of(metric_name);
    let ls = text::split_lines(&text::chars_of(text));
    let ghost all = text::lines(text@);
    let mut total: u64 = 0;
    let mut i: usize = 0;
    while i < ls.len()
        invariant
            i <= ls@.len(),
            name@ == metric_name@,
            text::char_views(ls@) == all,
            total == vstd::math::min(
                lines_amount(all.take(i as int), name@) as int,
                u64::MAX as int,
            ),
        decreases ls@.len() - i,
    {
        proof {
            assert(all[i as int] == ls@[i as int]@);
            assert(all.take(i + 1).drop_last() =~= all.take(i as int));
        }
        total = total.saturating_add(amount_of(&ls[i], &name));
        i = i + 1;
    }
    assert(all.take(i as int) =~= all);
    total
}

/// The labels that are added to a line: the node, and its host name if known.
pub open spec fn node_labels(node_id: Seq<char>, hostname: Option<Seq<char>>) -> Seq<char> {
    match hostname {
        Some(h) => "node_id=\""@ + node_id + "\""@ + ",hostname=\""@ + h + "\""@,
        None => "node_id=\""@ + node_id + "\""@,
    }
}

/// The line with the labels added: at the start of its label set if it has one,
/// else as a new label set before the value. Blank lines, comments and lines
/// without a value stay as they are.
pub open spec fn labeled_line(line: Seq<char>, added: Seq<char>) -> Seq<char> {
    if !is_sample(line) {
        line
    } else {
        match text::find(line, '{') {
            Some(open) => {
                let close = match text::find(line, '}') {
                    Some(c) => c,
                    None => line.len() as int,
                };
                let existing = line.subrange(open + 1, close);
                line.take(open + 1) + added + (if existing.len() == 0 {
                    Seq::empty()
                } else {
                    seq![','] + existing
                }) + line.skip(close)
            },
            None => match text::find(line, ' ') {
                Some(space) => line.take(space) + seq!['{'] + added + seq!['}'] + line.skip(space),
                None => line,
            },
        }
    }
}

/// The lines with the labels added, each ended by a newline.
pub open spec fn labeled_lines(ls: Seq<Seq<char>>, added: Seq<char>) -> Seq<char>
    decreases ls.len(),
{
    if ls.len() == 0 {
        Seq::empty()
    } else {
        labeled_lines(ls.drop_last(), added) + labeled_line(ls.last(), added).push('\n')
    }
}

/// Whether no first closing brace comes before the first opening brace.
pub open spec fn braces_ordered(line: Seq<char>) -> bool {
    match (text::find(line, '{'), text::find(line, '}')) {
        (Some(open), Some(close)) => open < close,
        _ => true,
    }
}

/// Whether labels can be added to every sample of the text.
pub open spec fn labelable(text: Seq<char>) -> bool {
    forall|i: int|
        0 <= i < text::lines(text).len() && is_sample(#[trigger] text::lines(text)[i])
            ==> braces_ordered(text::lines(text)[i])
}

/// Whether labels can be added to every sample of the text.
pub fn is_labelable(text: &str) -> (r: bool)
    ensures
        r == labelable(text@),
{
    let ls = text::split_lines(&text::chars_of(text));
    let ghost all = text::lines(text@);
    let mut i: usize = 0;
    while i < ls.len()
        invariant
            i <= ls@.len(),
            all == text::lines(text@),
            text::char_views(ls@) == all,
            forall|j: int|
                0 <= j < i && is_sample(#[trigger] all[j]) ==> braces_ordered(all[j]),
        decreases ls@.len() - i,
    {
        assert(all[i as int] == ls@[i as int]@);
        let trimmed = text::trimmed(&ls[i]);
        if trimmed.len() > 0 && trimmed[0] != '#' {
            if let Some(open) = text::find_char(&ls[i], '{') {
                if let Some(close) = text::find_char(&ls[i], '}') {
                    if close < open {
                        return false;
                    }
                    proof {
                        text::lemma_find(ls@[i as int]@, '{');
                        text::lemma_find(ls@[i as int]@, '}');
                    }
                }
            }
        }
        i = i + 1;
    }
    true
}

/// The labels that are added to a line.
fn added_labels(node_id: &str, hostname: Option<&str>) -> (s: String)
    ensures
        s@ == node_labels(node_id@, text::opt_str(hostname)),
{
    let mut s: String = text::concat3("node_id=\"", node_id, "\"");
    if let Some(h) = hostname {
        s.push_str(",hostname=\"");
        s.push_str(h);
        s.push_str("\"");
    }
    s
}

/// Adds the labels to one line.
fn label_line(line: &Vec<char>, added: &str) -> (s: String)
    requires
        is_sample(line@) ==> braces_ordered(line@),
    ensures
        s@ == labeled_line(line@, added@),
{
    let trimmed = text::trimmed(line);
    if trimmed.len() == 0 || trimmed[0] == '#' {
        return text::string_of(line);
    }
    if let Some(open) = text::find_char(line, '{') {
        let close: usize = match text::find_char(line, '}') {
            Some(c) => c,
            None => line.len(),
        };
        proof {
            text::lemma_find(line@, '{');
            text::lemma_find(line@, '}');
        }
        let existing = text::slice(line, open + 1, close);
        let mut s: String = text::string_of(&text::slice(line, 0, open + 1));
        assert(s@ =~= line@.take(open + 1));
        s.push_str(added);
        if existing.len() > 0 {
            s.push(',');
            s.push_str(text::string_of(&existing).as_str());
        }
        s.push_str(text::string_of(&text::slice(line, close, line.len())).as_str());
        assert(line@.subrange(close as int, line@.len() as int) =~= line@.skip(close as int));
        assert(s@ =~= labeled_line(line@, added@));
        s
    } else if let Some(space) = text::find_char(line, ' ') {
        let mut s: String = text::string_of(&text::slice(line, 0, space));
        assert(s@ =~= line@.take(space as int));
        s.push('{');
        s.push_str(added);
        s.push('}');
        s.push_str(text::string_of(&text::slice(line, space, line.len())).as_str());
        assert(line@.subrange(space as int, line@.len() as int) =~= line@.skip(space as int));
        assert(s@ =~= labeled_line(line@, added@));
        s
    } else {
        text::string_of(line)
    }
}

/// Rewrite every Prometheus data line to include `node_id` and optionally
/// `hostname` labels.
///
/// Comment lines (`# …`) and blank lines are passed through unchanged.
/// For lines that already have a label set (`{…}`), the new labels are
/// prepended inside the braces.  For label-less lines the label set is
/// synthesised before the value.
pub fn inject_node_label(text: &str, node_id: &str, hostname: Option<&str>) -> (out: String)
    requires
        labelable(text@),
    ensures
        out@ == labeled_lines(
            text::lines(text@),
            node_labels(node_id@, text::opt_str(hostname)),
        ),
{
    let added = added_labels(node_id, hostname);
    let ls = text::split_lines(&text::chars_of(text));
    let ghost all = text::lines(text@);
    let mut out: String = String::new();
    let mut i: usize = 0;
    while i < ls.len()
        invariant
            i <= ls@.len(),
            all == text::lines(text@),
            text::char_views(ls@) == all,
            forall|j: int|
                0 <= j < all.len() && is_sample(#[trigger] all[j]) ==> braces_ordered(all[j]),
            out@ == labeled_lines(all.take(i as int), added@),
        decreases ls@.len() - i,
    {
        proof {
            assert(all[i as int] == ls@[i as int]@);
            assert(all.take(i + 1).drop_last() =~= all.take(i as int));
        }
        let ghost before = out@;
        let labeled = label_line(&ls[i], added.as_str());
        out.push_str(labeled.as_str());
        out.push('\n');
        assert(out@ =~= before + labeled@.push('\n'));
        i = i + 1;
    }
    assert(all.take(i as int) =~= all);
    out
}

/// All global stats for one interface + direction parsed from Prometheus text.
pub struct InterfaceStats {
    pub rx_packets: u64,
    pub rx_bytes: u64,
    pub tx_packets: u64,
    pub tx_bytes: u64,
    pub policy_matches: u64,
    pub policy_drops: u64,
    pub policy_pass: u64,
    pub policy_redirects: u64,
    pub parse_errors: u64,
    pub tail_calls: u64,
    pub bum_packets: u64,
    pub non_ip_unicast: u64,
    pub inspect_redirects: u64,
    pub fragments: u64,
    pub verdict_pass_packets: u64,
    pub verdict_pass_bytes: u64,
    pub verdict_drop_packets: u64,
    pub verdict_drop_bytes: u64,
    pub fib_forwarded_packets: u64,
    pub fib_forwarded_bytes: u64,
    pub fib_fallback_packets: u64,
    pub urpf_drop_packets: u64,
    pub urpf_drop_bytes: u64,
}

/// The labels of the global stats of one interface and direction.
pub open spec fn interface_labels<'a>(interface: &'a str, direction: &'a str) -> Seq<
    (&'a str, &'a str),
> {
    seq![("interface", interface), ("direction", direction)]
}

/// The value of the counter in the text, or zero when it is not there.
pub open spec fn stat_in(text: Seq<char>, name: Seq<char>, labels: Seq<(&str, &str)>) -> nat {
    match counter_in(text, name, labels) {
        Some(Some(n)) => n,
        _ => 0,
    }
}

/// The counters of received traffic are those of sent traffic when the
/// direction is egress.
pub open spec fn packets_metric(direction: Seq<char>) -> Seq<char> {
    if direction == "egress"@ {
        "policy_engine_tx_packets_total"@
    } else {
        "policy_engine_rx_packets_total"@
    }
}

/// As `packets_metric`, for bytes.
pub open spec fn bytes_metric(direction: Seq<char>) -> Seq<char> {
    if direction == "egress"@ {
        "policy_engine_tx_bytes_total"@
    } else {
        "policy_engine_rx_bytes_total"@
    }
}

/// Whether every counter of the interface stats has a reading in the text.
pub open spec fn stats_readable(
    text: Seq<char>,
    direction: Seq<char>,
    labels: Seq<(&str, &str)>,
) -> bool {
    &&& counter_in(text, packets_metric(direction), labels) is Some
    &&& counter_in(text, bytes_metric(direction), labels) is Some
    &&& counter_in(text, "policy_engine_tx_packets_total"@, labels) is Some
    &&& counter_in(text, "policy_engine_tx_bytes_total"@, labels) is Some
    &&& counter_in(text, "policy_engine_policy_matches_total"@, labels) is Some
    &&& counter_in(text, "policy_engine_policy_drops_total"@, labels) is Some
    &&& counter_in(text, "policy_engine_policy_pass_total"@, labels) is Some
    &&& counter_in(text, "policy_engine_policy_redirects_total"@, labels) is Some
    &&& counter_in(text, "policy_engine_parse_errors_total"@, labels) is Some
    &&& counter_in(text, "policy_engine_tail_calls_total"@, labels) is Some
    &&& counter_in(text, "policy_engine_bum_packets_total"@, labels) is Some
    &&& counter_in(text, "policy_engine_non_ip_unicast_total"@, labels) is Some
    &&& counter_in(text, "policy_engine_inspect_redirects_total"@, labels) is Some
    &&& counter_in(text, "policy_engine_fragments_total"@, labels) is Some
    &&& counter_in(text, "policy_engine_verdict_pass_packets_total"@, labels) is Some
    &&& counter_in(text, "policy_engine_verdict_pass_bytes_total"@, labels) is Some
    &&& counter_in(text, "policy_engine_verdict_drop_packets_total"@, labels) is Some
    &&& counter_in(text, "policy_engine_verdict_drop_bytes_total"@, labels) is Some
    &&& counter_in(text, "policy_engine_fib_forwarded_packets_total"@, labels) is Some
    &&& counter_in(text, "policy_engine_fib_forwarded_bytes_total"@, labels) is Some
    &&& counter_in(text, "policy_engine_fib_fallback_packets_total"@, labels) is Some
    &&& counter_in(text, "policy_engine_urpf_drop_packets_total"@, labels) is Some
    &&& counter_in(text, "policy_engine_urpf_drop_bytes_total"@, labels) is Some
}

/// One counter of the given interface and direction, zero when it is not there.
fn stat(text: &str, name: &str, interface: &str, direction: &str) -> (n: u64)
    requires
        counter_in(text@, name@, interface_labels(interface, direction)) is Some,
    ensures
        n == stat_in(text@, name@, interface_labels(interface, direction)),
{
    let labels: [(&str, &str); 2] = [("interface", interface), ("direction", direction)];
    assert(labels@ =~= interface_labels(interface, direction));
    match parse_counter(text, name, labels.as_slice()) {
        Some(n) => n,
        None => 0,
    }
}

/// Whether the stats of an interface and direction are those that a text has under the
/// names of their counters. What counts as received in the direction egress is what is
/// sent.
pub open spec fn reads_stats(
    text: Seq<char>,
    interface: &str,
    direction: &str,
    s: InterfaceStats,
) -> bool {
    let labels = interface_labels(interface, direction);
    &&& s.rx_packets == stat_in(text, packets_metric(direction@), labels)
    &&& s.rx_bytes == stat_in(text, bytes_metric(direction@), labels)
    &&& s.tx_packets == stat_in(text, "policy_engine_tx_packets_total"@, labels)
    &&& s.tx_bytes == stat_in(text, "policy_engine_tx_bytes_total"@, labels)
    &&& s.policy_matches == stat_in(text, "policy_engine_policy_matches_total"@, labels)
    &&& s.policy_drops == stat_in(text, "policy_engine_policy_drops_total"@, labels)
    &&& s.policy_pass == stat_in(text, "policy_engine_policy_pass_total"@, labels)
    &&& s.policy_redirects == stat_in(text, "policy_engine_policy_redirects_total"@, labels)
    &&& s.parse_errors == stat_in(text, "policy_engine_parse_errors_total"@, labels)
    &&& s.tail_calls == stat_in(text, "policy_engine_tail_calls_total"@, labels)
    &&& s.bum_packets == stat_in(text, "policy_engine_bum_packets_total"@, labels)
    &&& s.non_ip_unicast == stat_in(text, "policy_engine_non_ip_unicast_total"@, labels)
    &&& s.inspect_redirects == stat_in(text, "policy_engine_inspect_redirects_total"@, labels)
    &&& s.fragments == stat_in(text, "policy_engine_fragments_total"@, labels)
    &&& s.verdict_pass_packets == stat_in(text, "policy_engine_verdict_pass_packets_total"@, labels)
    &&& s.verdict_pass_bytes == stat_in(text, "policy_engine_verdict_pass_bytes_total"@, labels)
    &&& s.verdict_drop_packets == stat_in(text, "policy_engine_verdict_drop_packets_total"@, labels)
    &&& s.verdict_drop_bytes == stat_in(text, "policy_engine_verdict_drop_bytes_total"@, labels)
    &&& s.fib_forwarded_packets == stat_in(text, "policy_engine_fib_forwarded_packets_total"@, labels)
    &&& s.fib_forwarded_bytes == stat_in(text, "policy_engine_fib_forwarded_bytes_total"@, labels)
    &&& s.fib_fallback_packets == stat_in(text, "policy_engine_fib_fallback_packets_total"@, labels)
    &&& s.urpf_drop_packets == stat_in(text, "policy_engine_urpf_drop_packets_total"@, labels)
    &&& s.urpf_drop_bytes == stat_in(text, "policy_engine_urpf_drop_bytes_total"@, labels)
}

/// Parse all global stats for the given interface + direction from Prometheus text.
pub fn parse_interface_stats(text: &str, interface: &str, direction: &str) -> (s: InterfaceStats)
    requires
        stats_readable(text@, direction@, interface_labels(interface, direction)),
    ensures
        reads_stats(text@, interface, direction, s),
        s.rx_packets == stat_in(
            text@,
            packets_metric(direction@),
            interface_labels(interface, direction),
        ),
        s.rx_bytes == stat_in(
            text@,
            bytes_metric(direction@),
            interface_labels(interface, direction),
        ),
        s.tx_packets == stat_in(text@, "policy_engine_tx_packets_total"@, interface_labels(interface, direction)),
        s.tx_bytes == stat_in(text@, "policy_engine_tx_bytes_total"@, interface_labels(interface, direction)),
        s.policy_matches == stat_in(text@, "policy_engine_policy_matches_total"@, interface_labels(interface, direction)),
        s.policy_drops == stat_in(text@, "policy_engine_policy_drops_total"@, interface_labels(interface, direction)),
        s.policy_pass == stat_in(text@, "policy_engine_policy_pass_total"@, interface_labels(interface, direction)),
        s.policy_redirects == stat_in(text@, "policy_engine_policy_redirects_total"@, interface_labels(interface, direction)),
        s.parse_errors == stat_in(text@, "policy_engine_parse_errors_total"@, interface_labels(interface, direction)),
        s.tail_calls == stat_in(text@, "policy_engine_tail_calls_total"@, interface_labels(interface, direction)),
        s.bum_packets == stat_in(text@, "policy_engine_bum_packets_total"@, interface_labels(interface, direction)),
        s.non_ip_unicast == stat_in(text@, "policy_engine_non_ip_unicast_total"@, interface_labels(interface, direction)),
        s.inspect_redirects == stat_in(text@, "policy_engine_inspect_redirects_total"@, interface_labels(interface, direction)),
        s.fragments == stat_in(text@, "policy_engine_fragments_total"@, interface_labels(interface, direction)),
        s.verdict_pass_packets == stat_in(text@, "policy_engine_verdict_pass_packets_total"@, interface_labels(interface, direction)),
        s.verdict_pass_bytes == stat_in(text@, "policy_engine_verdict_pass_bytes_total"@, interface_labels(interface, direction)),
        s.verdict_drop_packets == stat_in(text@, "policy_engine_verdict_drop_packets_total"@, interface_labels(interface, direction)),
        s.verdict_drop_bytes == stat_in(text@, "policy_engine_verdict_drop_bytes_total"@, interface_labels(interface, direction)),
        s.fib_forwarded_packets == stat_in(text@, "policy_engine_fib_forwarded_packets_total"@, interface_labels(interface, direction)),
        s.fib_forwarded_bytes == stat_in(text@, "policy_engine_fib_forwarded_bytes_total"@, interface_labels(interface, direction)),
        s.fib_fallback_packets == stat_in(text@, "policy_engine_fib_fallback_packets_total"@, interface_labels(interface, direction)),
        s.urpf_drop_packets == stat_in(text@, "policy_engine_urpf_drop_packets_total"@, interface_labels(interface, direction)),
        s.urpf_drop_bytes == stat_in(text@, "policy_engine_urpf_drop_bytes_total"@, interface_labels(interface, direction)),
{
    let (packets, bytes): (&str, &str) = if text::same(direction, "egress") {
        ("policy_engine_tx_packets_total", "policy_engine_tx_bytes_total")
    } else {
        ("policy_engine_rx_packets_total", "policy_engine_rx_bytes_total")
    };
    InterfaceStats {
        rx_packets: stat(text, packets, interface, direction),
        rx_bytes: stat(text, bytes, interface, direction),
        tx_packets: stat(text, "policy_engine_tx_packets_total", interface, direction),
        tx_bytes: stat(text, "policy_engine_tx_bytes_total", interface, direction),
        policy_matches: stat(text, "policy_engine_policy_matches_total", interface, direction),
        policy_drops: stat(text, "policy_engine_policy_drops_total", interface, direction),
        policy_pass: stat(text, "policy_engine_policy_pass_total", interface, direction),
        policy_redirects: stat(text, "policy_engine_policy_redirects_total", interface, direction),
        parse_errors: stat(text, "policy_engine_parse_errors_total", interface, direction),
        tail_calls: stat(text, "policy_engine_tail_calls_total", interface, direction),
        bum_packets: stat(text, "policy_engine_bum_packets_total", interface, direction),
        non_ip_unicast: stat(text, "policy_engine_non_ip_unicast_total", interface, direction),
        inspect_redirects: stat(text, "policy_engine_inspect_redirects_total", interface, direction),
        fragments: stat(text, "policy_engine_fragments_total", interface, direction),
        verdict_pass_packets: stat(text, "policy_engine_verdict_pass_packets_total", interface, direction),
        verdict_pass_bytes: stat(text, "policy_engine_verdict_pass_bytes_total", interface, direction),
        verdict_drop_packets: stat(text, "policy_engine_verdict_drop_packets_total", interface, direction),
        verdict_drop_bytes: stat(text, "policy_engine_verdict_drop_bytes_total", interface, direction),
        fib_forwarded_packets: stat(text, "policy_engine_fib_forwarded_packets_total", interface, direction),
        fib_forwarded_bytes: stat(text, "policy_engine_fib_forwarded_bytes_total", interface, direction),
        fib_fallback_packets: stat(text, "policy_engine_fib_fallback_packets_total", interface, direction),
        urpf_drop_packets: stat(text, "policy_engine_urpf_drop_packets_total", interface, direction),
        urpf_drop_bytes: stat(text, "policy_engine_urpf_drop_bytes_total", interface, direction),
    }
}

/// One ethertype bucket parsed from Prometheus text.
pub struct EthertypeStat {
    pub ethertype: u32,
    pub ethertype_name: String,
    pub packets: u64,
}

/// What an ethertype bucket holds: its number, its name and its count.
pub type EthertypeView = (nat, Seq<char>, nat);

impl View for EthertypeStat {
    type V = EthertypeView;

    open spec fn view(&self) -> EthertypeView {
        (self.ethertype as nat, self.ethertype_name@, self.packets as nat)
    }
}

/// The value of a label: what stands between the first `key="` in the label set
/// and the next quotation mark.
pub open spec fn label_value(label_set: Seq<char>, key: Seq<char>) -> Option<Seq<char>> {
    let prefix = key + "=\""@;
    if text::occurs(label_set, prefix) {
        let start = choose|i: int| text::first_occurs_at(label_set, prefix, i);
        let tail = label_set.skip(start + prefix.len());
        match text::find(tail, '"') {
            Some(end) => Some(tail.take(end)),
            None => None,
        }
    } else {
        None
    }
}

/// The ethertype bucket on a line, if the line holds one of the given interface
/// and direction whose count can be read.
pub open spec fn line_ethertype(
    raw: Seq<char>,
    interface: Seq<char>,
    direction: Seq<char>,
) -> Option<EthertypeView> {
    let line = text::trim(raw);
    match (text::find(line, '{'), text::find(line, '}')) {
        (Some(open), Some(close)) => {
            let set = line.subrange(open + 1, close);
            if is_sample(raw) && line.take(open) == "policy_engine_ethertype_packets_total"@
                && has_label(set, "interface"@, interface) && has_label(
                set,
                "direction"@,
                direction,
            ) {
                match counter_value(line.skip(close + 1)) {
                    Some(n) => Some(
                        (
                            match label_value(set, "ethertype"@) {
                                Some(t) => match text::parse_nat(t, u32::MAX as nat) {
                                    Some(e) => e,
                                    None => 0,
                                },
                                None => 0,
                            },
                            match label_value(set, "ethertype_name"@) {
                                Some(t) => t,
                                None => "Unknown"@,
                            },
                            n,
                        ),
                    ),
                    None => None,
                }
            } else {
                None
            }
        },
        _ => None,
    }
}

/// The ethertype buckets on the lines, in their order.
pub open spec fn ethertypes_in(
    ls: Seq<Seq<char>>,
    interface: Seq<char>,
    direction: Seq<char>,
) -> Seq<EthertypeView>
    decreases ls.len(),
{
    if ls.len() == 0 {
        Seq::empty()
    } else {
        let earlier = ethertypes_in(ls.drop_last(), interface, direction);
        match line_ethertype(ls.last(), interface, direction) {
            Some(e) => earlier.push(e),
            None => earlier,
        }
    }
}

/// Whether the line, if it is a sample of the ethertype counter, has its braces
/// in order.
pub open spec fn ethertype_readable(raw: Seq<char>) -> bool {
    let line = text::trim(raw);
    match text::find(line, '{') {
        Some(open) => is_sample(raw) && line.take(open)
            == "policy_engine_ethertype_packets_total"@ ==> braces_ordered(line),
        None => true,
    }
}

/// Extract a single label value from a Prometheus label set.
fn extract_label(label_set: &Vec<char>, key: &str) -> (r: Option<Vec<char>>)
    ensures
        match r {
            Some(v) => label_value(label_set@, key@) == Some(v@),
            None => label_value(label_set@, key@) is None,
        },
{
    let prefix_text = text::concat2(key, "=\"");
    let prefix = text::chars_of(prefix_text.as_str());
    match text::find_text(label_set, &prefix) {
        None => None,
        Some(at) => {
            proof {
                assert(text::occurs_at(label_set@, prefix@, at as int));
                let start = choose|i: int| text::first_occurs_at(label_set@, prefix@, i);
                assert(text::first_occurs_at(label_set@, prefix@, start));
                assert(start == at) by {
                    if start < at {
                        assert(!text::occurs_at(label_set@, prefix@, start));
                    }
                    if at < start {
                        assert(!text::occurs_at(label_set@, prefix@, at as int));
                    }
                }
            }
            let tail = text::slice(label_set, at + prefix.len(), label_set.len());
            assert(tail@ =~= label_set@.skip(at + prefix@.len()));
            match text::find_char(&tail, '"') {
                Some(end) => {
                    let v = text::slice(&tail, 0, end);
                    assert(v@ =~= tail@.take(end as int));
                    Some(v)
                },
                None => None,
            }
        },
    }
}

/// The ethertype bucket on one line.
fn ethertype_of(raw: &Vec<char>, interface: &str, direction: &str) -> (r: Option<EthertypeStat>)
    requires
        ethertype_readable(raw@),
    ensures
        match r {
            Some(e) => line_ethertype(raw@, interface@, direction@) == Some(e@),
            None => line_ethertype(raw@, interface@, direction@) is None,
        },
{
    let line = text::trimmed(raw);
    if line.len() == 0 || line[0] == '#' {
        return None;
    }
    let open: usize = match text::find_char(&line, '{') {
        Some(i) => i,
        None => {
            return None;
        },
    };
    let close: usize = match text::find_char(&line, '}') {
        Some(i) => i,
        None => {
            return None;
        },
    };
    let head = text::slice(&line, 0, open);
    assert(head@ =~= line@.take(open as int));
    if !text::same_chars(&head, &text::chars_of("policy_engine_ethertype_packets_total")) {
        return None;
    }
    let set = text::slice(&line, open + 1, close);
    if !label_matches(&set, "interface", interface) {
        return None;
    }
    if !label_matches(&set, "direction", direction) {
        return None;
    }
    let tail = text::slice(&line, close + 1, line.len());
    assert(tail@ =~= line@.skip(close + 1));
    let packets: u64 = match leading_value(&tail) {
        Some(n) => n,
        None => {
            return None;
        },
    };
    let ethertype: u32 = match extract_label(&set, "ethertype") {
        Some(t) => match text::parse_u32(&t) {
            Some(e) => e,
            None => 0,
        },
        None => 0,
    };
    let ethertype_name: String = match extract_label(&set, "ethertype_name") {
        Some(t) => text::string_of(&t),
        None => "Unknown".to_string(),
    };
    Some(EthertypeStat { ethertype, ethertype_name, packets })
}

/// Parse all ethertype counters for the given interface + direction.
pub fn parse_ethertype_stats(text: &str, interface: &str, direction: &str) -> (r: Vec<
    EthertypeStat,
>)
    requires
        forall|i: int|
            0 <= i < text::lines(text@).len() ==> ethertype_readable(
                #[trigger] text::lines(text@)[i],
            ),
    ensures
        r@.map_values(|e: EthertypeStat| e@) == ethertypes_in(
            text::lines(text@),
            interface@,
            direction@,
        ),
{
    let ls = text::split_lines(&text::chars_of(text));
    let ghost all = text::lines(text@);
    let mut r: Vec<EthertypeStat> = Vec::new();
    let mut i: usize = 0;
    while i < ls.len()
        invariant
            i <= ls@.len(),
            text::char_views(ls@) == all,
            forall|j: int| 0 <= j < all.len() ==> ethertype_readable(#[trigger] all[j]),
            r@.map_values(|e: EthertypeStat| e@) == ethertypes_in(
                all.take(i as int),
                interface@,
                direction@,
            ),
        decreases ls@.len() - i,
    {
        proof {
            assert(all[i as int] == ls@[i as int]@);
            assert(all.take(i + 1).drop_last() =~= all.take(i as int));
        }
        let ghost before = r@;
        if let Some(e) = ethertype_of(&ls[i], interface, direction) {
            r.push(e);
            assert(r@.map_values(|e: EthertypeStat| e@) =~= before.map_values(
                |e: EthertypeStat| e@,
            ).push(e@));
        }
        i = i + 1;
    }
    assert(all.take(i as int) =~= all);
    r
}

} // verus!
