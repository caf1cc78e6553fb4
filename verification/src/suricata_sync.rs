//! Fleet Suricata ruleset synchronisation helpers.
//!
//! A ruleset materialises on each assigned node as one file,
//! `fleet-<name>.rules`, in the engine's Suricata rules directory. The
//! controller stores the canonical content and its SHA-256; the agent
//! reports per-file digests in every StateSnapshot. [`build_ruleset_push`]
//! diffs desired against reported and yields the minimal
//! `SuricataRulesetPush`, which the agent applies idempotently (write
//! changed files, delete stale `fleet-*` files, reload once).
//!
//! ## Digest contract
//!
//! `sha256` is computed over the *exact bytes* stored in `content` — the
//! engine writes rule files byte-verbatim and hashes them the same way, so
//! any canonicalisation must happen exactly once, at ruleset write time
//! ([`canonicalize_content`]). Anything else would make the digests
//! oscillate and re-push the ruleset on every snapshot.

use crate::crypto;
use crate::proto::{self, PushedFileView, RulesetPushView, SuricataRuleFile, SuricataRulesetPush};
use crate::store::records::{copy_bytes, RuleFileView, RulesetView};
use crate::store::{self, SuricataRuleFileReport, SuricataRuleset};
use crate::text;
use vstd::prelude::*;

verus! {

broadcast use vstd::string::group_string_axioms;

/// Per-ruleset content cap. Keeps a push with several files comfortably
/// under the 16 MiB gRPC message limit. Big public feeds (ET Open) stay
/// node-local via suricata-update; fleet rulesets are for curated content.
pub const MAX_RULESET_BYTES: usize = 4194304;

/// The text without the newlines at its end.
pub open spec fn without_newlines(s: Seq<char>) -> Seq<char>
    decreases s.len(),
{
    if s.len() > 0 && s.last() == '\n' {
        without_newlines(s.drop_last())
    } else {
        s
    }
}

/// The canonical form of ruleset content.
pub open spec fn canonical_content(s: Seq<char>) -> Seq<char> {
    without_newlines(s).push('\n')
}

/// Canonical form of ruleset content: exactly one trailing newline.
pub fn canonicalize_content(content: &str) -> (s: String)
    ensures
        s@ == canonical_content(content@),
{
    let chars = text::chars_of(content);
    let mut end: usize = chars.len();
    assert(content@.take(end as int) =~= content@);
    while end > 0 && chars[end - 1] == '\n'
        invariant
            chars@ == content@,
            end <= content@.len(),
            without_newlines(content@.take(end as int)) == without_newlines(content@),
        decreases end,
    {
        assert(content@.take(end as int).drop_last() =~= content@.take(end - 1));
        end = end - 1;
    }
    proof {
        let kept = content@.take(end as int);
        if end > 0 {
            assert(kept.last() == content@[end - 1]);
        }
        assert(without_newlines(kept) == kept);
    }
    let mut s = text::string_of(&text::slice(&chars, 0, end));
    assert(s@ =~= content@.take(end as int));
    s.push('\n');
    s
}

/// Content in canonical form is its own canonical form.
pub proof fn canonical_content_is_stable(s: Seq<char>)
    ensures
        canonical_content(canonical_content(s)) == canonical_content(s),
    decreases s.len(),
{
    let c = canonical_content(s);
    assert(c.drop_last() =~= without_newlines(s));
    lemma_no_newline_left(s);
    assert(without_newlines(c) == without_newlines(without_newlines(s)));
    assert(without_newlines(without_newlines(s)) == without_newlines(s));
}

/// What is left does not end in a newline.
proof fn lemma_no_newline_left(s: Seq<char>)
    ensures
        without_newlines(s).len() > 0 ==> without_newlines(s).last() != '\n',
    decreases s.len(),
{
    if s.len() > 0 && s.last() == '\n' {
        lemma_no_newline_left(s.drop_last());
    }
}

/// Whether a line holds a rule: it is neither blank nor a comment.
pub open spec fn is_rule_line(l: Seq<char>) -> bool {
    let t = text::trim(l);
    t.len() > 0 && t[0] != '#'
}

/// The lines that hold rules.
pub open spec fn rule_lines(content: Seq<char>) -> Seq<Seq<char>> {
    text::lines(content).filter(|l: Seq<char>| is_rule_line(l))
}

/// A newline at the end adds no rule.
proof fn lemma_ended_counts_alike(a: Seq<char>)
    ensures
        rule_lines(a.push('\n')).len() == rule_lines(a).len(),
{
    let keep = |l: Seq<char>| is_rule_line(l);
    let x = text::lines(a);
    let none = Seq::<char>::empty();
    text::lemma_lines_ended(a);
    if a.len() == 0 || a.last() == '\n' {
        x.lemma_filter_push(none, keep);
        assert(text::trim(none) =~= none) by {
            assert(text::trim_start(none) =~= none);
        }
    } else {
        let last = text::strip_cr(x.last());
        text::lemma_trim_cr(x.last());
        x.drop_last().lemma_filter_push(last, keep);
        x.drop_last().lemma_filter_push(x.last(), keep);
        assert(x.drop_last().push(x.last()) =~= x);
    }
}

/// The rules of two texts, one after the other on lines of their own, are those of the
/// first and those of the second.
pub proof fn rule_counts_add_up(a: Seq<char>, b: Seq<char>)
    ensures
        rule_lines(a.push('\n') + b).len() == rule_lines(a).len() + rule_lines(b).len(),
{
    text::lemma_lines_joined(a, b);
    Seq::filter_distributes_over_add(
        text::lines(a.push('\n')),
        text::lines(b),
        |l: Seq<char>| is_rule_line(l),
    );
    lemma_ended_counts_alike(a);
}

/// The canonical form of content has the rules of the content.
pub proof fn canonical_content_keeps_rules(s: Seq<char>)
    ensures
        rule_lines(canonical_content(s)).len() == rule_lines(s).len(),
    decreases s.len(),
{
    if s.len() > 0 && s.last() == '\n' {
        canonical_content_keeps_rules(s.drop_last());
        lemma_ended_counts_alike(s.drop_last());
        assert(s.drop_last().push('\n') =~= s);
    } else {
        lemma_ended_counts_alike(s);
    }
}

/// One line is one rule, unless it is blank or a comment, indented or not.
pub proof fn line_is_at_most_one_rule(l: Seq<char>)
    requires
        !l.contains('\n'),
    ensures
        rule_lines(l).len() == (if is_rule_line(l) {
            1int
        } else {
            0
        }),
{
    let keep = |x: Seq<char>| is_rule_line(x);
    let none = Seq::<Seq<char>>::empty();
    text::lemma_find(l, '\n');
    assert(none.filter(keep) =~= none) by {
        reveal(Seq::filter);
    }
    if l.len() > 0 {
        none.lemma_filter_push(l, keep);
        assert(none.push(l) =~= seq![l]);
    } else {
        assert(text::lines(l) =~= none);
        assert(text::trim(l) =~= l) by {
            assert(text::trim_start(l) =~= l);
        }
    }
}

/// Count non-empty, non-comment lines (matches the engine's rule counting).
pub fn rule_count(content: &str) -> (n: u32)
    ensures
        n == rule_lines(content@).len() as u32,
{
    let lines = text::split_lines(&text::chars_of(content));
    let ghost all = text::lines(content@);
    let ghost keep = |l: Seq<char>| is_rule_line(l);
    let mut count: u64 = 0;
    let mut i: usize = 0;
    assert(all.take(0) =~= Seq::<Seq<char>>::empty());
    while i < lines.len()
        invariant
            i <= lines.len(),
            text::char_views(lines@) == all,
            keep == (|l: Seq<char>| is_rule_line(l)),
            count == all.take(i as int).filter(keep).len(),
            count <= i,
        decreases lines@.len() - i,
    {
        proof {
            assert(all[i as int] == lines@[i as int]@);
            assert(all.take(i + 1) =~= all.take(i as int).push(all[i as int]));
            all.take(i as int).lemma_filter_push(all[i as int], keep);
        }
        let t = text::trimmed(&lines[i]);
        if t.len() > 0 && t[0] != '#' {
            count = count + 1;
        }
        i = i + 1;
    }
    assert(all.take(i as int) =~= all);
    #[verifier::truncate]
    (count as u32)
}

/// The hexadecimal SHA-256 of a text.
pub open spec fn content_digest(s: Seq<char>) -> Seq<char> {
    crypto::hex_text(crypto::sha256(vstd::utf8::encode_utf8(s)))
}

/// Hex SHA-256 over the content bytes.
pub fn sha256_hex(content: &str) -> (s: String)
    ensures
        s@ == content_digest(content@),
        s@.len() == 64,
{
    let d = crypto::digest(content.as_bytes());
    crypto::encode_hex(d.as_slice())
}

/// Whether a character may stand in the name of a ruleset.
pub open spec fn name_char(c: char) -> bool {
    ('a' <= c && c <= 'z') || ('0' <= c && c <= '9') || c == '-' || c == '_'
}

/// Whether the name of a ruleset is too short or too long, counted in bytes.
pub open spec fn name_length_wrong(name: Seq<char>) -> bool {
    name.len() == 0 || vstd::utf8::encode_utf8(name).len() > 64
}

/// Whether all characters may stand in the name of a ruleset.
pub open spec fn name_chars_right(name: Seq<char>) -> bool {
    forall|i: int| 0 <= i < name.len() ==> name_char(#[trigger] name[i])
}

/// Ruleset names become filenames (`fleet-<name>.rules`), so restrict them
/// to a filesystem- and shell-safe alphabet.
pub fn validate_ruleset_name(name: &str) -> (r: Result<(), String>)
    ensures
        match r {
            Ok(_) => !name_length_wrong(name@) && name_chars_right(name@),
            Err(e) => if name_length_wrong(name@) {
                e@ == "Ruleset name must be 1-64 characters"@
            } else {
                !name_chars_right(name@) && e@ == "Invalid ruleset name "@ + text::quoted(name@)
                    + ": use lowercase letters, digits, '-' and '_'"@
            },
        },
{
    if name.is_empty() || name.as_bytes().len() > 64 {
        return Err("Ruleset name must be 1-64 characters".to_string());
    }
    let chars = text::chars_of(name);
    let mut i: usize = 0;
    while i < chars.len()
        invariant
            i <= chars@.len(),
            chars@ == name@,
            !name_length_wrong(name@),
            forall|j: int| 0 <= j < i ==> name_char(#[trigger] name@[j]),
        decreases chars@.len() - i,
    {
        let c = chars[i];
        if !(('a' <= c && c <= 'z') || ('0' <= c && c <= '9') || c == '-' || c == '_') {
            assert(!name_char(name@[i as int]));
            let q = text::quote(name);
            return Err(
                text::concat3(
                    "Invalid ruleset name ",
                    q.as_str(),
                    ": use lowercase letters, digits, '-' and '_'",
                ),
            );
        }
        i = i + 1;
    }
    Ok(())
}

/// Whether a rule file is managed by the fleet.
pub open spec fn fleet_file(name: Seq<char>) -> bool {
    text::occurs_at(name, "fleet-"@, 0)
}

/// The digest that a node reports last for a fleet-managed file.
pub open spec fn reported_digest(reported: Seq<RuleFileView>, name: Seq<char>) -> Option<Seq<char>>
    decreases reported.len(),
{
    if reported.len() == 0 {
        None
    } else if fleet_file(reported.last().filename) && reported.last().filename == name {
        Some(reported.last().sha256)
    } else {
        reported_digest(reported.drop_last(), name)
    }
}

/// Whether a node lacks the content of a ruleset.
pub open spec fn lacks_content(reported: Seq<RuleFileView>, rs: RulesetView) -> bool {
    reported_digest(reported, rs.file()) != Some(rs.sha256)
}

/// The names of the files that a node should have.
pub open spec fn desired_files(desired: Seq<RulesetView>) -> Seq<Seq<char>> {
    desired.map_values(|rs: RulesetView| rs.file())
}

/// Whether a fleet-managed file is on a node that should not be there.
pub open spec fn has_stale(desired: Seq<RulesetView>, reported: Seq<RuleFileView>) -> bool {
    exists|i: int|
        0 <= i < reported.len() && fleet_file((#[trigger] reported[i]).filename) && !desired_files(
            desired,
        ).contains(reported[i].filename)
}

/// The file of a ruleset.
pub open spec fn pushed_file(rs: RulesetView) -> PushedFileView {
    PushedFileView {
        filename: rs.file(),
        content: vstd::utf8::encode_utf8(rs.content),
        sha256: rs.sha256,
        rule_count: rs.rule_count,
    }
}

/// The files whose content a node lacks.
pub open spec fn lacking_files(desired: Seq<RulesetView>, reported: Seq<RuleFileView>) -> Seq<
    PushedFileView,
> {
    desired.filter(|rs: RulesetView| lacks_content(reported, rs)).map_values(
        |rs: RulesetView| pushed_file(rs),
    )
}

/// What is pushed to a node, nothing when it is in sync.
pub open spec fn ruleset_push(desired: Seq<RulesetView>, reported: Seq<RuleFileView>) -> Option<
    RulesetPushView,
> {
    if lacking_files(desired, reported).len() == 0 && !has_stale(desired, reported) {
        None
    } else {
        Some(
            RulesetPushView {
                files: lacking_files(desired, reported),
                desired_filenames: desired_files(desired),
                generation_id: Seq::empty(),
                confirm_deadline_ms: 0,
            },
        )
    }
}

/// Whether a rule file is managed by the fleet.
fn is_fleet_file(name: &str) -> (r: bool)
    ensures
        r == fleet_file(name@),
{
    text::matches_at(&text::chars_of(name), &text::chars_of("fleet-"), 0)
}

/// Whether the last report of a fleet-managed file has the digest.
fn digest_reported(reported: &[SuricataRuleFileReport], name: &str, sha256: &str) -> (r: bool)
    ensures
        r == (reported_digest(store::rule_file_views(reported@), name@) == Some(sha256@)),
{
    let ghost views = store::rule_file_views(reported@);
    let mut i: usize = reported.len();
    assert(views.take(i as int) =~= views);
    while i > 0
        invariant
            i <= reported@.len(),
            views == store::rule_file_views(reported@),
            reported_digest(views, name@) == reported_digest(views.take(i as int), name@),
        decreases i,
    {
        i = i - 1;
        proof {
            assert(views.take(i + 1).drop_last() =~= views.take(i as int));
            assert(views.take(i + 1).last() == reported@[i as int]@);
        }
        let f = &reported[i];
        if text::same(f.filename.as_str(), name) && is_fleet_file(f.filename.as_str()) {
            return text::same(f.sha256.as_str(), sha256);
        }
    }
    false
}

/// Diff the node's desired rulesets against its agent-reported rule files
/// and build the minimal push, or `None` when the node is in sync.
///
/// Only `fleet-*` files participate: node-local rule files never appear in
/// `desired_filenames`, so the agent never deletes them. The push is built
/// un-gated (empty generation_id); callers that need the confirm handshake
/// stamp the generation via the pending machinery instead.
pub fn build_ruleset_push(desired: &[SuricataRuleset], reported: &[SuricataRuleFileReport]) -> (r:
    Option<SuricataRulesetPush>)
    ensures
        match r {
            Some(p) => ruleset_push(
                store::ruleset_views(desired@),
                store::rule_file_views(reported@),
            ) == Some(p@),
            None => ruleset_push(
                store::ruleset_views(desired@),
                store::rule_file_views(reported@),
            ) is None,
        },
{
    let ghost want = store::ruleset_views(desired@);
    let ghost have = store::rule_file_views(reported@);
    let ghost keep = |rs: RulesetView| lacks_content(have, rs);
    let ghost file = |rs: RulesetView| pushed_file(rs);
    let mut desired_filenames: Vec<String> = Vec::new();
    let mut files: Vec<SuricataRuleFile> = Vec::new();
    let mut i: usize = 0;
    assert(want.take(0) =~= Seq::<RulesetView>::empty());
    assert(proto::pushed_file_views(files@) =~= want.take(0).filter(keep).map_values(file));
    while i < desired.len()
        invariant
            i <= desired@.len(),
            want == store::ruleset_views(desired@),
            have == store::rule_file_views(reported@),
            keep == (|rs: RulesetView| lacks_content(have, rs)),
            file == (|rs: RulesetView| pushed_file(rs)),
            desired_filenames@.len() == i,
            forall|j: int| 0 <= j < i ==> (#[trigger] desired_filenames@[j])@ == want[j].file(),
            proto::pushed_file_views(files@) == want.take(i as int).filter(keep).map_values(file),
        decreases desired@.len() - i,
    {
        let ghost before = files@;
        let ghost listed = want.take(i as int).filter(keep);
        proof {
            assert(want[i as int] == desired@[i as int]@);
            assert(want.take(i + 1) =~= want.take(i as int).push(want[i as int]));
            want.take(i as int).lemma_filter_push(want[i as int], keep);
        }
        let rs = &desired[i];
        let name = rs.filename();
        if !digest_reported(reported, name.as_str(), rs.sha256.as_str()) {
            files.push(
                SuricataRuleFile {
                    filename: rs.filename(),
                    content: copy_bytes(rs.content.as_str().as_bytes()),
                    sha256: rs.sha256.clone(),
                    rule_count: rs.rule_count,
                },
            );
            proof {
                assert(proto::pushed_file_views(files@) =~= proto::pushed_file_views(before).push(
                    pushed_file(want[i as int]),
                ));
                assert(listed.push(want[i as int]).map_values(file) =~= listed.map_values(
                    file,
                ).push(pushed_file(want[i as int])));
            }
        }
        desired_filenames.push(name);
        i = i + 1;
    }
    assert(want.take(i as int) =~= want);
    assert(text::texts(desired_filenames@) =~= desired_files(want));
    let mut stale: bool = false;
    let mut j: usize = 0;
    while j < reported.len()
        invariant
            j <= reported@.len(),
            have == store::rule_file_views(reported@),
            text::texts(desired_filenames@) == desired_files(want),
            stale == exists|k: int|
                0 <= k < j && fleet_file((#[trigger] have[k]).filename) && !desired_files(
                    want,
                ).contains(have[k].filename),
        decreases reported@.len() - j,
    {
        let ghost was = stale;
        assert(have[j as int] == reported@[j as int]@);
        let f = &reported[j];
        if is_fleet_file(f.filename.as_str()) && !text::has_text(
            &desired_filenames,
            f.filename.as_str(),
        ) {
            stale = true;
        }
        proof {
            if was {
                let k = choose|k: int|
                    0 <= k < j && fleet_file((#[trigger] have[k]).filename) && !desired_files(
                        want,
                    ).contains(have[k].filename);
                assert(fleet_file(have[k].filename));
            }
        }
        j = j + 1;
    }
    if files.len() == 0 && !stale {
        return None;
    }
    let p = SuricataRulesetPush {
        files,
        desired_filenames,
        generation_id: String::new(),
        confirm_deadline_ms: 0,
    };
    assert(p@.generation_id =~= Seq::<char>::empty());
    Some(p)
}

/// A node that reports every desired file with its digest, and no other file of
/// the fleet, is pushed nothing; files of its own do not matter.
pub proof fn in_sync_node_is_left_alone(desired: Seq<RulesetView>, reported: Seq<RuleFileView>)
    requires
        forall|i: int| 0 <= i < desired.len() ==> !lacks_content(reported, #[trigger] desired[i]),
        forall|i: int|
            0 <= i < reported.len() && fleet_file((#[trigger] reported[i]).filename)
                ==> desired_files(desired).contains(reported[i].filename),
    ensures
        ruleset_push(desired, reported) is None,
{
    lemma_nothing_lacking(desired, reported);
}

/// Where nothing is lacking no file is pushed.
proof fn lemma_nothing_lacking(desired: Seq<RulesetView>, reported: Seq<RuleFileView>)
    requires
        forall|i: int| 0 <= i < desired.len() ==> !lacks_content(reported, #[trigger] desired[i]),
    ensures
        desired.filter(|rs: RulesetView| lacks_content(reported, rs)).len() == 0,
    decreases desired.len(),
{
    reveal(Seq::filter);
    if desired.len() > 0 {
        let front = desired.drop_last();
        assert forall|i: int| 0 <= i < front.len() implies !lacks_content(
            reported,
            #[trigger] front[i],
        ) by {
            assert(front[i] == desired[i]);
        }
        lemma_nothing_lacking(front, reported);
    }
}

/// Every file that a push names is managed by the fleet, so that files of a node's
/// own are never deleted.
pub proof fn push_names_fleet_files_only(desired: Seq<RulesetView>)
    ensures
        forall|i: int|
            0 <= i < desired_files(desired).len() ==> fleet_file(
                #[trigger] desired_files(desired)[i],
            ),
{
    assert forall|i: int| 0 <= i < desired_files(desired).len() implies fleet_file(
        #[trigger] desired_files(desired)[i],
    ) by {
        let f = desired_files(desired)[i];
        assert(f =~= "fleet-"@ + (desired[i].name + ".rules"@));
        assert(f.subrange(0, "fleet-"@.len() as int) =~= "fleet-"@);
    }
}

proof fn lemma_local_digest(
    reported: Seq<RuleFileView>,
    at: int,
    local: RuleFileView,
    name: Seq<char>,
)
    requires
        0 <= at <= reported.len(),
        !fleet_file(local.filename),
    ensures
        reported_digest(reported.insert(at, local), name) == reported_digest(reported, name),
    decreases reported.len(),
{
    let all = reported.insert(at, local);
    if at == reported.len() {
        assert(all.drop_last() =~= reported);
    } else {
        assert(all.last() == reported.last());
        assert(all.drop_last() =~= reported.drop_last().insert(at, local));
        lemma_local_digest(reported.drop_last(), at, local, name);
    }
}

/// Files of a node's own do not matter to what is pushed to it.
pub proof fn local_files_do_not_matter(
    desired: Seq<RulesetView>,
    reported: Seq<RuleFileView>,
    at: int,
    local: RuleFileView,
)
    requires
        0 <= at <= reported.len(),
        !fleet_file(local.filename),
    ensures
        ruleset_push(desired, reported.insert(at, local)) == ruleset_push(desired, reported),
{
    let all = reported.insert(at, local);
    assert forall|rs: RulesetView| lacks_content(all, rs) == lacks_content(reported, rs) by {
        lemma_local_digest(reported, at, local, rs.file());
    }
    assert((|rs: RulesetView| lacks_content(all, rs)) =~= (|rs: RulesetView|
        lacks_content(reported, rs)));
    if has_stale(desired, reported) {
        let i = choose|i: int|
            0 <= i < reported.len() && fleet_file((#[trigger] reported[i]).filename)
                && !desired_files(desired).contains(reported[i].filename);
        let j = if i < at {
            i
        } else {
            i + 1
        };
        assert(all[j] == reported[i]);
    }
    if has_stale(desired, all) {
        let j = choose|j: int|
            0 <= j < all.len() && fleet_file((#[trigger] all[j]).filename) && !desired_files(
                desired,
            ).contains(all[j].filename);
        let i = if j < at {
            j
        } else {
            j - 1
        };
        assert(j != at);
        assert(reported[i] == all[j]);
    }
}

/// Whether a name begins with `fleet-`, by its characters.
pub open spec fn begins_with_fleet(name: Seq<char>) -> bool {
    name.len() >= 6 && name.take(6) == seq!['f', 'l', 'e', 'e', 't', '-']
}

/// The files of the fleet are those whose names begin with `fleet-`.
proof fn lemma_fleet_file(name: Seq<char>)
    ensures
        fleet_file(name) == begins_with_fleet(name),
{
    reveal_strlit("fleet-");
    assert("fleet-"@ =~= seq!['f', 'l', 'e', 'e', 't', '-']);
    if name.len() >= 6 {
        assert(name.take(6) =~= name.subrange(0, 6));
    }
}

/// Whether one of the rulesets belongs in a file.
pub open spec fn wants_file(desired: Seq<RulesetView>, name: Seq<char>) -> bool {
    exists|i: int|
        0 <= i < desired.len() && "fleet-"@ + (#[trigger] desired[i]).name + ".rules"@ == name
}

/// Whether the last report of a file gives a digest.
pub open spec fn last_reported_as(
    reported: Seq<RuleFileView>,
    name: Seq<char>,
    sha256: Seq<char>,
) -> bool {
    exists|i: int|
        {
            &&& 0 <= i < reported.len()
            &&& (#[trigger] reported[i]).filename == name
            &&& reported[i].sha256 == sha256
            &&& forall|j: int| i < j < reported.len() ==> (#[trigger] reported[j]).filename != name
        }
}

/// The digest that counts is that of the last report.
proof fn lemma_last_report_counts(reported: Seq<RuleFileView>, name: Seq<char>, sha256: Seq<char>)
    requires
        fleet_file(name),
    ensures
        reported_digest(reported, name) == Some(sha256) <==> last_reported_as(
            reported,
            name,
            sha256,
        ),
    decreases reported.len(),
{
    if reported.len() > 0 {
        let front = reported.drop_last();
        let n = reported.len() - 1;
        lemma_last_report_counts(front, name, sha256);
        assert(reported[n] == reported.last());
        if reported.last().filename == name {
            if last_reported_as(reported, name, sha256) {
                let i = choose|i: int|
                    {
                        &&& 0 <= i < reported.len()
                        &&& (#[trigger] reported[i]).filename == name
                        &&& reported[i].sha256 == sha256
                        &&& forall|j: int|
                            i < j < reported.len() ==> (#[trigger] reported[j]).filename != name
                    };
                if i < n {
                    assert(reported[n].filename != name);
                }
            }
        } else {
            if last_reported_as(front, name, sha256) {
                let i = choose|i: int|
                    {
                        &&& 0 <= i < front.len()
                        &&& (#[trigger] front[i]).filename == name
                        &&& front[i].sha256 == sha256
                        &&& forall|j: int|
                            i < j < front.len() ==> (#[trigger] front[j]).filename != name
                    };
                assert(reported[i] == front[i]);
                assert forall|j: int| i < j < reported.len() implies (
                #[trigger] reported[j]).filename != name by {
                    if j < n {
                        assert(front[j] == reported[j]);
                    }
                }
            }
            if last_reported_as(reported, name, sha256) {
                let i = choose|i: int|
                    {
                        &&& 0 <= i < reported.len()
                        &&& (#[trigger] reported[i]).filename == name
                        &&& reported[i].sha256 == sha256
                        &&& forall|j: int|
                            i < j < reported.len() ==> (#[trigger] reported[j]).filename != name
                    };
                assert(front[i] == reported[i]);
                assert forall|j: int| i < j < front.len() implies (#[trigger] front[j]).filename
                    != name by {
                    assert(front[j] == reported[j]);
                }
            }
        }
    }
}

/// The file of a ruleset is one of the fleet.
proof fn lemma_own_file(rs: RulesetView)
    ensures
        rs.file() == "fleet-"@ + rs.name + ".rules"@,
        fleet_file(rs.file()),
{
    let f = rs.file();
    assert(f =~= "fleet-"@ + (rs.name + ".rules"@));
    assert(f.subrange(0, "fleet-"@.len() as int) =~= "fleet-"@);
}

/// Whether a file is that of a wanted ruleset which a node does not report under its digest.
pub open spec fn is_due(
    f: PushedFileView,
    desired: Seq<RulesetView>,
    reported: Seq<RuleFileView>,
) -> bool {
    exists|i: int|
        {
            &&& 0 <= i < desired.len()
            &&& f.filename == "fleet-"@ + (#[trigger] desired[i]).name + ".rules"@
            &&& f.content == vstd::utf8::encode_utf8(desired[i].content)
            &&& f.sha256 == desired[i].sha256
            &&& f.rule_count == desired[i].rule_count
            &&& !last_reported_as(reported, f.filename, f.sha256)
        }
}

/// What is lacking is what the filter keeps.
proof fn lemma_lacking(desired: Seq<RulesetView>, reported: Seq<RuleFileView>)
    ensures
        forall|i: int|
            0 <= i < desired.len() && lacks_content(reported, #[trigger] desired[i])
                ==> lacking_files(desired, reported).contains(pushed_file(desired[i])),
        forall|k: int|
            0 <= k < lacking_files(desired, reported).len() ==> is_due(
                #[trigger] lacking_files(desired, reported)[k],
                desired,
                reported,
            ),
    decreases desired.len(),
{
    let keep = |rs: RulesetView| lacks_content(reported, rs);
    let file = |rs: RulesetView| pushed_file(rs);
    let kept = desired.filter(keep);
    let out = lacking_files(desired, reported);
    assert(out == kept.map_values(file));
    broadcast use vstd::seq_lib::group_filter_ensures;

    assert forall|i: int|
        0 <= i < desired.len() && lacks_content(reported, #[trigger] desired[i]) implies
        out.contains(pushed_file(desired[i])) by {
        assert(keep(desired[i]));
        assert(desired.contains(desired[i]));
        assert(kept.contains(desired[i]));
        let k = choose|k: int| 0 <= k < kept.len() && kept[k] == desired[i];
        assert(out[k] == pushed_file(desired[i]));
    }
    assert forall|k: int| 0 <= k < out.len() implies is_due(#[trigger] out[k], desired, reported) by {
        desired.lemma_filter_pred(keep, k);
        assert(kept.contains(kept[k]));
        desired.lemma_filter_contains_rev(keep, kept[k]);
        let i = choose|i: int| 0 <= i < desired.len() && desired[i] == kept[k];
        lemma_own_file(desired[i]);
        lemma_last_report_counts(reported, desired[i].file(), desired[i].sha256);
        assert(out[k] == pushed_file(desired[i]));
    }
}

/// A node that reports a file of the fleet which no ruleset is wanted in is pushed to,
/// whatever else is wanted, and the push does not name the file, so that the agent deletes
/// it.
pub proof fn unwanted_file_is_swept(
    desired: Seq<RulesetView>,
    reported: Seq<RuleFileView>,
    i: int,
)
    requires
        0 <= i < reported.len(),
        begins_with_fleet(reported[i].filename),
        !wants_file(desired, reported[i].filename),
    ensures
        ruleset_push(desired, reported) matches Some(p) && !p.desired_filenames.contains(
            reported[i].filename,
        ),
{
    let name = reported[i].filename;
    lemma_fleet_file(name);
    assert(!desired_files(desired).contains(name)) by {
        if desired_files(desired).contains(name) {
            let k = choose|k: int| 0 <= k < desired.len() && desired_files(desired)[k] == name;
            lemma_own_file(desired[k]);
        }
    }
}

/// A node that does not report a wanted ruleset under its digest is pushed its file, with
/// the content that the ruleset has.
pub proof fn lacking_ruleset_is_sent(
    desired: Seq<RulesetView>,
    reported: Seq<RuleFileView>,
    i: int,
)
    requires
        0 <= i < desired.len(),
        !last_reported_as(
            reported,
            "fleet-"@ + desired[i].name + ".rules"@,
            desired[i].sha256,
        ),
    ensures
        ruleset_push(desired, reported) matches Some(p) && p.files.contains(
            PushedFileView {
                filename: "fleet-"@ + desired[i].name + ".rules"@,
                content: vstd::utf8::encode_utf8(desired[i].content),
                sha256: desired[i].sha256,
                rule_count: desired[i].rule_count,
            },
        ),
{
    lemma_own_file(desired[i]);
    lemma_last_report_counts(reported, desired[i].file(), desired[i].sha256);
    lemma_lacking(desired, reported);
}

/// A push names the files of all wanted rulesets in their order, awaits no confirmation,
/// and sends no file of a ruleset that the node reports under its digest.
pub proof fn push_is_minimal(desired: Seq<RulesetView>, reported: Seq<RuleFileView>)
    requires
        ruleset_push(desired, reported) is Some,
    ensures
        ({
            let p = ruleset_push(desired, reported)->0;
            &&& p.desired_filenames.len() == desired.len()
            &&& forall|i: int|
                0 <= i < desired.len() ==> p.desired_filenames[i] == "fleet-"@ + (
                #[trigger] desired[i]).name + ".rules"@
            &&& p.generation_id.len() == 0
            &&& p.confirm_deadline_ms == 0
            &&& forall|k: int|
                0 <= k < p.files.len() ==> is_due(#[trigger] p.files[k], desired, reported)
            &&& p.files.len() <= desired.len()
        }),
{
    let p = ruleset_push(desired, reported)->0;
    lemma_lacking(desired, reported);
    let keep = |rs: RulesetView| lacks_content(reported, rs);
    desired.lemma_filter_len(keep);
    assert forall|i: int| 0 <= i < desired.len() implies p.desired_filenames[i] == "fleet-"@ + (
    #[trigger] desired[i]).name + ".rules"@ by {
        lemma_own_file(desired[i]);
    }
}

/// Where nothing is pushed the node is in sync: its files of the fleet are those of the
/// wanted rulesets, each under the digest of its ruleset.
pub proof fn nothing_pushed_means_in_sync(desired: Seq<RulesetView>, reported: Seq<RuleFileView>)
    requires
        ruleset_push(desired, reported) is None,
    ensures
        forall|i: int|
            0 <= i < reported.len() && begins_with_fleet((#[trigger] reported[i]).filename)
                ==> wants_file(desired, reported[i].filename),
        forall|i: int|
            0 <= i < desired.len() ==> last_reported_as(
                reported,
                "fleet-"@ + (#[trigger] desired[i]).name + ".rules"@,
                desired[i].sha256,
            ),
{
    assert forall|i: int|
        0 <= i < reported.len() && begins_with_fleet((#[trigger] reported[i]).filename) implies
        wants_file(desired, reported[i].filename) by {
        if !wants_file(desired, reported[i].filename) {
            unwanted_file_is_swept(desired, reported, i);
        }
    }
    assert forall|i: int| 0 <= i < desired.len() implies last_reported_as(
        reported,
        "fleet-"@ + (#[trigger] desired[i]).name + ".rules"@,
        desired[i].sha256,
    ) by {
        if !last_reported_as(
            reported,
            "fleet-"@ + desired[i].name + ".rules"@,
            desired[i].sha256,
        ) {
            lacking_ruleset_is_sent(desired, reported, i);
        }
    }
}

/// The canonical form of content ends in one newline, and is the content but for the
/// newlines at the end.
pub proof fn canonical_content_ends_once(s: Seq<char>)
    ensures
        ({
            let c = canonical_content(s);
            let body = c.drop_last();
            &&& c.len() > 0 && c.last() == '\n'
            &&& body.len() > 0 ==> body.last() != '\n'
            &&& body.len() <= s.len() && s.take(body.len() as int) == body
            &&& forall|i: int| body.len() <= i < s.len() ==> #[trigger] s[i] == '\n'
        }),
    decreases s.len(),
{
    let body = canonical_content(s).drop_last();
    assert(body =~= without_newlines(s));
    lemma_no_newline_left(s);
    if s.len() > 0 && s.last() == '\n' {
        let front = s.drop_last();
        canonical_content_ends_once(front);
        assert(canonical_content(front).drop_last() =~= body);
        assert(front.take(body.len() as int) =~= s.take(body.len() as int));
        assert forall|i: int| body.len() <= i < s.len() implies #[trigger] s[i] == '\n' by {
            if i < front.len() {
                assert(front[i] == s[i]);
            }
        }
    } else {
        assert(s.take(s.len() as int) =~= s);
    }
}

/// White space in front is cut off.
proof fn lemma_indented(indent: nat, l: Seq<char>)
    requires
        l.len() > 0,
        !text::white_space(l[0]),
    ensures
        text::trim_start(Seq::new(indent, |i: int| ' ') + l) == l,
    decreases indent,
{
    let all = Seq::new(indent, |i: int| ' ') + l;
    if indent == 0 {
        assert(all =~= l);
    } else {
        lemma_indented((indent - 1) as nat, l);
        assert(all[0] == ' ');
        assert(all.skip(1) =~= Seq::new((indent - 1) as nat, |i: int| ' ') + l);
    }
}

/// What begins with something else than white space keeps its beginning.
proof fn lemma_beginning_stays(l: Seq<char>)
    requires
        l.len() > 0,
        !text::white_space(l[0]),
    ensures
        text::trim_end(l).len() > 0,
        text::trim_end(l)[0] == l[0],
    decreases l.len(),
{
    if l.len() > 1 && text::white_space(l.last()) {
        lemma_beginning_stays(l.drop_last());
    }
}

/// A line whose first mark behind its indent is `#` is no rule; with any other printable
/// ASCII character there it is one.
pub proof fn comments_are_no_rules(indent: nat, c: char, rest: Seq<char>)
    requires
        33 <= c as u32 <= 126,
    ensures
        is_rule_line(Seq::new(indent, |i: int| ' ') + (seq![c] + rest)) == (c != '#'),
        !is_rule_line(Seq::new(indent, |i: int| ' ')),
{
    let l = seq![c] + rest;
    assert(l[0] == c);
    lemma_indented(indent, l);
    lemma_beginning_stays(l);
    lemma_blank(indent);
}

/// Nothing but spaces is nothing.
proof fn lemma_blank(indent: nat)
    ensures
        text::trim(Seq::new(indent, |i: int| ' ')).len() == 0,
    decreases indent,
{
    let all = Seq::new(indent, |i: int| ' ');
    if indent > 0 {
        lemma_blank((indent - 1) as nat);
        assert(all[0] == ' ');
        assert(all.skip(1) =~= Seq::new((indent - 1) as nat, |i: int| ' '));
    }
}

/// The name of a ruleset is safe as part of a file name: it holds nothing but small
/// letters, digits, hyphens and underscores, so no path and no blank, and is no longer than
/// sixty-four characters; and every such name is taken.
pub proof fn ruleset_name_is_safe(name: Seq<char>)
    ensures
        !name_length_wrong(name) && name_chars_right(name) ==> 1 <= name.len() <= 64,
        name_chars_right(name) ==> !name.contains('/') && !name.contains('.') && !name.contains(' ')
            && !name.contains('\\') && !name.contains('A') && !name.contains('\n'),
        1 <= name.len() <= 64 && (forall|i: int|
            0 <= i < name.len() ==> 'a' <= (#[trigger] name[i]) <= 'z' || '0' <= name[i] <= '9'
                || name[i] == '-' || name[i] == '_') ==> !name_length_wrong(name)
            && name_chars_right(name),
        name_chars_right(name) ==> forall|i: int|
            0 <= i < name.len() ==> 'a' <= (#[trigger] name[i]) <= 'z' || '0' <= name[i] <= '9'
                || name[i] == '-' || name[i] == '_',
{
    if name_chars_right(name) {
        assert(vstd::utf8::is_ascii_chars(name)) by {
            assert forall|i: int| 0 <= i < name.len() implies '\0' <= #[trigger] name[i]
                <= '\u{7f}' by {
                assert(name_char(name[i]));
            }
        }
        vstd::utf8::is_ascii_chars_encode_utf8(name);
    }
}

} // verus!
