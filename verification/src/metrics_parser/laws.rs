//! What labels that are added to a text leave as it was.

use crate::text;
use vstd::prelude::*;

verus! {

broadcast use vstd::string::group_string_axioms;

/// What stands on a line that carries a sample.
enum Parts {
    /// A label set that is not closed.
    Torn,
    /// A label set that is closed before it is opened.
    Crossed,
    /// A name, a label set and what follows it.
    Labeled { head: Seq<char>, set: Seq<char>, tail: Seq<char> },
    /// A name and what follows it.
    Bare { head: Seq<char>, tail: Seq<char> },
}

/// The parts of a line without white space at its ends.
spec fn parts_of(line: Seq<char>) -> Parts {
    match (text::find(line, '{'), text::find(line, '}')) {
        (Some(_), None) => Parts::Torn,
        (Some(open), Some(close)) => if close < open {
            Parts::Crossed
        } else {
            Parts::Labeled {
                head: line.take(open),
                set: line.subrange(open + 1, close),
                tail: line.skip(close + 1),
            }
        },
        (None, _) => Parts::Bare { head: super::bare_name(line), tail: super::bare_value(line) },
    }
}

/// Where the text lies that is left without the white space at the ends.
spec fn trims_to(s: Seq<char>, from: int, to: int) -> bool {
    &&& 0 <= from < to <= s.len()
    &&& !text::white_space(s[from])
    &&& !text::white_space(s[to - 1])
    &&& forall|i: int| 0 <= i < from ==> text::white_space(#[trigger] s[i])
    &&& forall|i: int| to <= i < s.len() ==> text::white_space(#[trigger] s[i])
}

proof fn lemma_trim_start(s: Seq<char>, from: int)
    requires
        0 <= from < s.len(),
        !text::white_space(s[from]),
        forall|i: int| 0 <= i < from ==> text::white_space(#[trigger] s[i]),
    ensures
        text::trim_start(s) == s.skip(from),
    decreases from,
{
    if from == 0 {
        assert(s.skip(0) =~= s);
    } else {
        let t = s.skip(1);
        assert forall|i: int| 0 <= i < from - 1 implies text::white_space(#[trigger] t[i]) by {
            assert(t[i] == s[i + 1]);
        }
        lemma_trim_start(t, from - 1);
        assert(t.skip(from - 1) =~= s.skip(from));
    }
}

proof fn lemma_trim_end(s: Seq<char>, to: int)
    requires
        0 < to <= s.len(),
        !text::white_space(s[to - 1]),
        forall|i: int| to <= i < s.len() ==> text::white_space(#[trigger] s[i]),
    ensures
        text::trim_end(s) == s.take(to),
    decreases s.len(),
{
    if to == s.len() {
        assert(s.take(to) =~= s);
    } else {
        let t = s.drop_last();
        assert forall|i: int| to <= i < t.len() implies text::white_space(#[trigger] t[i]) by {
            assert(t[i] == s[i]);
        }
        assert(t[to - 1] == s[to - 1]);
        lemma_trim_end(t, to);
        assert(t.take(to) =~= s.take(to));
    }
}

proof fn lemma_trims_to(s: Seq<char>, from: int, to: int)
    requires
        trims_to(s, from, to),
    ensures
        text::trim(s) == s.subrange(from, to),
{
    lemma_trim_start(s, from);
    let t = s.skip(from);
    assert forall|i: int| to - from <= i < t.len() implies text::white_space(#[trigger] t[i]) by {
        assert(t[i] == s[from + i]);
    }
    lemma_trim_end(t, to - from);
    assert(t.take(to - from) =~= s.subrange(from, to));
}

/// The ends of the trimmed text, where anything is left.
proof fn lemma_trim_ends(s: Seq<char>) -> (r: (int, int))
    requires
        text::trim(s).len() > 0,
    ensures
        trims_to(s, r.0, r.1),
    decreases s.len(),
{
    if text::white_space(s[0]) {
        let t = s.skip(1);
        assert(text::trim(t) == text::trim(s));
        let (f, g) = lemma_trim_ends(t);
        assert forall|i: int| 0 <= i < f + 1 implies text::white_space(#[trigger] s[i]) by {
            if i > 0 {
                assert(s[i] == t[i - 1]);
            }
        }
        assert forall|i: int| g + 1 <= i < s.len() implies text::white_space(
            #[trigger] s[i],
        ) by {
            assert(s[i] == t[i - 1]);
        }
        assert(s[f + 1] == t[f]);
        assert(s[g] == t[g - 1]);
        (f + 1, g + 1)
    } else if text::white_space(s.last()) {
        let t = s.drop_last();
        assert(t[0] == s[0]);
        assert(text::trim(t) == text::trim(s));
        let (f, g) = lemma_trim_ends(t);
        assert forall|i: int| 0 <= i < f implies text::white_space(#[trigger] s[i]) by {
            assert(s[i] == t[i]);
        }
        assert forall|i: int| g <= i < s.len() implies text::white_space(#[trigger] s[i]) by {
            if i < t.len() {
                assert(s[i] == t[i]);
            }
        }
        (f, g)
    } else {
        (0, s.len() as int)
    }
}

/// A character that is no white space stands first at the same place in the trimmed
/// text.
proof fn lemma_find_trimmed(s: Seq<char>, from: int, to: int, c: char)
    requires
        trims_to(s, from, to),
        !text::white_space(c),
    ensures
        match text::find(s, c) {
            Some(i) => from <= i < to && text::find(s.subrange(from, to), c) == Some(i - from),
            None => text::find(s.subrange(from, to), c) is None,
        },
{
    let t = s.subrange(from, to);
    text::lemma_find(s, c);
    text::lemma_find(t, c);
    match text::find(s, c) {
        Some(i) => {
            assert(t[i - from] == c);
            assert forall|j: int| 0 <= j < i - from implies t[j] != c by {
                assert(t[j] == s[from + j]);
            }
            text::lemma_find_some(t, c, i - from);
        },
        None => {
            assert forall|j: int| 0 <= j < t.len() implies t[j] != c by {
                assert(t[j] == s[from + j]);
            }
        },
    }
}

/// The label set with the added labels in front.
spec fn joined(added: Seq<char>, set: Seq<char>) -> Seq<char> {
    if set.len() == 0 {
        added
    } else {
        added + seq![','] + set
    }
}

/// How much white space stands at the start of a line.
pub open spec fn lead(line: Seq<char>) -> int {
    line.len() - text::trim_start(line).len()
}

/// Whether a line counts as it did once labels are added to it: a label set is not closed
/// before it is opened; where there is none, the first space does not stand in the white
/// space at the start, and no closing brace stands before it.
pub open spec fn takes_labels(line: Seq<char>) -> bool {
    super::is_sample(line) ==> match text::find(line, '{') {
        Some(_) => super::braces_ordered(line),
        None => match text::find(line, ' ') {
            Some(space) => lead(line) <= space && !line.take(space).contains('}'),
            None => true,
        },
    }
}

/// Whether a line still reads as it did once labels are added to it: where there is no
/// label set, no other white space stands between the name and the first space.
pub open spec fn keeps_name(line: Seq<char>) -> bool {
    super::is_sample(line) && text::find(line, '{') is None ==> match text::find(line, ' ') {
        Some(space) => space <= lead(line) + text::trim(line).len(),
        None => true,
    }
}

/// A line with a label set, and what becomes of it.
#[verifier::spinoff_prover]
#[verifier::rlimit(40)]
proof fn lemma_labeled_set(line: Seq<char>, added: Seq<char>, from: int, to: int)
    requires
        trims_to(line, from, to),
        super::is_sample(line),
        text::find(line, '{') is Some,
        super::braces_ordered(line),
        !added.contains('}'),
    ensures
        super::is_sample(super::labeled_line(line, added)),
        match parts_of(text::trim(line)) {
            Parts::Torn => parts_of(text::trim(super::labeled_line(line, added))) is Torn,
            Parts::Labeled { head, set, tail } => parts_of(
                text::trim(super::labeled_line(line, added)),
            ) == (Parts::Labeled { head, set: joined(added, set), tail }),
            _ => false,
        },
{
    let t = text::trim(line);
    let m = super::labeled_line(line, added);
    lemma_trims_to(line, from, to);
    lemma_find_trimmed(line, from, to, '{');
    lemma_find_trimmed(line, from, to, '}');
    text::lemma_find(line, '{');
    text::lemma_find(line, '}');
    let open = text::find(line, '{')->0;
    assert forall|i: int| 0 <= i <= open implies m[i] == line[i] by {}
    text::lemma_find_some(m, '{', open);
    match text::find(line, '}') {
        Some(close) => {
            let existing = line.subrange(open + 1, close);
            let set = joined(added, existing);
            assert(m =~= line.take(open + 1) + set + line.skip(close));
            let at = open + 1 + set.len();
            let end = to + (at - close);
            assert forall|i: int| 0 <= i < at implies m[i] != '}' by {
                if i > open {
                    let k = i - open - 1;
                    assert(m[i] == set[k]);
                    if k < added.len() {
                        assert(set[k] == added[k]);
                    } else if k > added.len() {
                        assert(set[k] == existing[k - added.len() - 1]);
                    }
                }
            }
            assert forall|i: int| at <= i < m.len() implies m[i] == line[i - at + close] by {}
            text::lemma_find_some(m, '}', at);
            assert(trims_to(m, from, end)) by {
                assert forall|i: int| end <= i < m.len() implies text::white_space(
                    #[trigger] m[i],
                ) by {
                    assert(m[i] == line[i - at + close]);
                }
            }
            lemma_trims_to(m, from, end);
            lemma_find_trimmed(m, from, end, '{');
            lemma_find_trimmed(m, from, end, '}');
            let u = m.subrange(from, end);
            assert(u.take(open - from) =~= t.take(open - from));
            assert(u.subrange(open - from + 1, at - from) =~= set);
            assert(t.subrange(open - from + 1, close - from) =~= existing);
            assert(u.skip(at - from + 1) =~= t.skip(close - from + 1));
            assert(u[0] == t[0]);
        },
        None => {
            assert forall|i: int| 0 <= i < m.len() implies m[i] != '}' by {
                if i > open {
                    let k = i - open - 1;
                    if k < added.len() {
                        assert(m[i] == added[k]);
                    } else if k > added.len() {
                        assert(m[i] == line[i - added.len() - 1]);
                    }
                }
            }
            assert(!m.contains('}'));
            text::lemma_find(m, '}');
            lemma_keeps_start(m, from);
            let (f, g) = lemma_trim_ends(m);
            lemma_trims_to(m, f, g);
            lemma_find_trimmed(m, f, g, '{');
            lemma_find_trimmed(m, f, g, '}');
            assert(f == from) by {
                if f < from {
                    assert(text::white_space(m[f]));
                }
                if from < f {
                    assert(text::white_space(m[from]));
                }
            }
            assert(m.subrange(f, g)[0] == t[0]);
        },
    }
}

/// Something is left of a text with a character that is no white space.
proof fn lemma_keeps_start(s: Seq<char>, at: int)
    requires
        0 <= at < s.len(),
        !text::white_space(s[at]),
    ensures
        text::trim(s).len() > 0,
    decreases s.len(),
{
    if text::white_space(s[0]) {
        assert(s.skip(1)[at - 1] == s[at]);
        lemma_keeps_start(s.skip(1), at - 1);
    } else if text::white_space(s.last()) {
        let t = s.drop_last();
        assert(t[0] == s[0]);
        assert(t[at] == s[at]);
        lemma_keeps_start(t, at);
        assert(text::trim(t) == text::trim(s));
    }
}

/// A text put in at a space inside a line leaves the ends of the line what they were.
proof fn lemma_trims_around(line: Seq<char>, put: Seq<char>, from: int, to: int, space: int)
    requires
        trims_to(line, from, to),
        from <= space < to,
        line[space] == ' ',
    ensures
        trims_to(line.take(space) + put + line.skip(space), from, to + put.len()),
{
    let m = line.take(space) + put + line.skip(space);
    let end = to + put.len();
    assert(from < space < to - 1);
    assert(m[from] == line[from]);
    assert(m[end - 1] == line[to - 1]);
    assert forall|i: int| 0 <= i < from implies text::white_space(#[trigger] m[i]) by {
        assert(m[i] == line[i]);
    }
    assert forall|i: int| end <= i < m.len() implies text::white_space(#[trigger] m[i]) by {
        assert(m[i] == line[i - put.len()]);
    }
}

/// A line without a label set, and what becomes of it.
#[verifier::spinoff_prover]
#[verifier::rlimit(40)]
proof fn lemma_labeled_bare(line: Seq<char>, added: Seq<char>, from: int, to: int, space: int)
    requires
        trims_to(line, from, to),
        super::is_sample(line),
        text::find(line, '{') is None,
        text::find(line, ' ') == Some(space),
        from <= space < to,
        !line.take(space).contains('}'),
        !added.contains('}'),
    ensures
        super::is_sample(super::labeled_line(line, added)),
        parts_of(text::trim(line)) matches Parts::Bare { head, tail } && parts_of(
            text::trim(super::labeled_line(line, added)),
        ) == (Parts::Labeled { head, set: added, tail: seq![' '] + tail }),
{
    let t = text::trim(line);
    let m = super::labeled_line(line, added);
    lemma_trims_to(line, from, to);
    lemma_find_trimmed(line, from, to, '{');
    text::lemma_find(line, '{');
    text::lemma_find(line, ' ');
    assert(t[space - from] == ' ');
    text::lemma_find_some(t, ' ', space - from);
    let at = space + 1 + added.len();
    let end = to + added.len() + 2;
    assert(m =~= line.take(space) + seq!['{'] + added + seq!['}'] + line.skip(space));
    assert forall|i: int| 0 <= i < space implies m[i] == line[i] by {}
    assert(m[space] == '{');
    text::lemma_find_some(m, '{', space);
    assert(m[at] == '}');
    assert forall|i: int| 0 <= i < at implies m[i] != '}' by {
        if i < space {
            assert(line.take(space)[i] == line[i]);
        } else if i > space {
            assert(m[i] == added[i - space - 1]);
        }
    }
    text::lemma_find_some(m, '}', at);
    let put = seq!['{'] + added + seq!['}'];
    assert(m =~= line.take(space) + put + line.skip(space));
    lemma_trims_around(line, put, from, to, space);
    lemma_trims_to(m, from, end);
    lemma_find_trimmed(m, from, end, '{');
    lemma_find_trimmed(m, from, end, '}');
    let u = m.subrange(from, end);
    assert(u.take(space - from) =~= t.take(space - from));
    assert(u.subrange(space - from + 1, at - from) =~= added);
    assert(u.skip(at - from + 1) =~= seq![' '] + t.skip(space - from + 1));
    assert(u[0] == t[0]);
}

/// A text put in behind a line is what the line ends with.
proof fn lemma_trims_behind(line: Seq<char>, put: Seq<char>, from: int, to: int, space: int)
    requires
        trims_to(line, from, to),
        to <= space <= line.len(),
        put.len() > 0,
        !text::white_space(put.last()),
    ensures
        trims_to(line.take(space) + put + line.skip(space), from, space + put.len()),
{
    let m = line.take(space) + put + line.skip(space);
    let end = space + put.len();
    assert(m[from] == line[from]);
    assert(m[end - 1] == put.last());
    assert forall|i: int| 0 <= i < from implies text::white_space(#[trigger] m[i]) by {
        assert(m[i] == line[i]);
    }
    assert forall|i: int| end <= i < m.len() implies text::white_space(#[trigger] m[i]) by {
        assert(m[i] == line[i - put.len()]);
    }
}

/// A line without a label set and without a value, but with a space behind it, and what
/// becomes of it.
#[verifier::spinoff_prover]
#[verifier::rlimit(40)]
proof fn lemma_labeled_empty(line: Seq<char>, added: Seq<char>, from: int, to: int, space: int)
    requires
        trims_to(line, from, to),
        super::is_sample(line),
        text::find(line, '{') is None,
        text::find(line, ' ') == Some(space),
        to <= space,
        !line.take(space).contains('}'),
        !added.contains('}'),
    ensures
        super::is_sample(super::labeled_line(line, added)),
        parts_of(text::trim(line)) matches Parts::Bare { head, tail } && tail.len() == 0 && parts_of(
            text::trim(super::labeled_line(line, added)),
        ) == (Parts::Labeled {
            head: line.subrange(from, space),
            set: added,
            tail: Seq::<char>::empty(),
        }) && (space == to ==> head == line.subrange(from, space)),
{
    let t = text::trim(line);
    let m = super::labeled_line(line, added);
    lemma_trims_to(line, from, to);
    lemma_find_trimmed(line, from, to, '{');
    text::lemma_find(line, '{');
    text::lemma_find(line, ' ');
    text::lemma_find(t, ' ');
    assert forall|i: int| 0 <= i < t.len() implies t[i] != ' ' by {
        assert(t[i] == line[from + i]);
    }
    let at = space + 1 + added.len();
    let end = at + 1;
    let put = seq!['{'] + added + seq!['}'];
    assert(m =~= line.take(space) + put + line.skip(space));
    assert(m[space] == '{');
    assert forall|i: int| 0 <= i < space implies m[i] == line[i] by {}
    text::lemma_find_some(m, '{', space);
    assert(m[at] == '}');
    assert forall|i: int| 0 <= i < at implies m[i] != '}' by {
        if i < space {
            assert(line.take(space)[i] == line[i]);
        } else if i > space {
            assert(m[i] == added[i - space - 1]);
        }
    }
    text::lemma_find_some(m, '}', at);
    assert(put.last() == '}');
    lemma_trims_behind(line, put, from, to, space);
    lemma_trims_to(m, from, end);
    lemma_find_trimmed(m, from, end, '{');
    lemma_find_trimmed(m, from, end, '}');
    let u = m.subrange(from, end);
    assert(u.take(space - from) =~= line.subrange(from, space));
    assert(u.subrange(space - from + 1, at - from) =~= added);
    assert(u.skip(at - from + 1) =~= Seq::<char>::empty());
    assert(u[0] == t[0]);
}

/// No value stands in an empty text.
proof fn lemma_no_value()
    ensures
        super::counter_value(Seq::empty()) is None,
{
    let none = Seq::<char>::empty();
    assert(text::trim_start(none) =~= none);
    assert(text::first_word(none) =~= none);
}

/// What becomes of a line to which labels are added.
proof fn lemma_line(line: Seq<char>, added: Seq<char>)
    requires
        takes_labels(line),
        !added.contains('}'),
    ensures
        super::is_sample(super::labeled_line(line, added)) == super::is_sample(line),
        super::is_sample(line) ==> {
            let after = parts_of(text::trim(super::labeled_line(line, added)));
            match parts_of(text::trim(line)) {
                Parts::Torn => after is Torn,
                Parts::Crossed => false,
                Parts::Labeled { head, set, tail } => after == (Parts::Labeled {
                    head,
                    set: joined(added, set),
                    tail,
                }),
                Parts::Bare { head, tail } => {
                    ||| after == (Parts::Bare { head, tail }) && tail.len() == 0
                    ||| after == (Parts::Labeled { head, set: added, tail: seq![' '] + tail })
                    ||| tail.len() == 0 && (after matches Parts::Labeled {
                        head: h,
                        set: s,
                        tail: rest,
                    } && s == added && rest.len() == 0 && (keeps_name(line) ==> h == head))
                },
            }
        },
{
    if super::is_sample(line) {
        let (from, to) = lemma_trim_ends(line);
        lemma_trims_to(line, from, to);
        lemma_trim_start(line, from);
        lemma_find_trimmed(line, from, to, '{');
        match text::find(line, '{') {
            Some(_) => {
                lemma_labeled_set(line, added, from, to);
            },
            None => match text::find(line, ' ') {
                Some(space) => {
                    if space < to {
                        lemma_labeled_bare(line, added, from, to, space);
                    } else {
                        lemma_labeled_empty(line, added, from, to, space);
                    }
                },
                None => {
                    let t = text::trim(line);
                    text::lemma_find(line, ' ');
                    text::lemma_find(t, ' ');
                    assert forall|i: int| 0 <= i < t.len() implies t[i] != ' ' by {
                        assert(t[i] == line[from + i]);
                    }
                },
            },
        }
    }
}

/// A line with room for labels has a label set once they are added.
proof fn lemma_stays_bare(line: Seq<char>, added: Seq<char>)
    requires
        super::is_sample(line),
        has_room(line),
    ensures
        !(parts_of(text::trim(super::labeled_line(line, added))) is Bare),
{
    let m = super::labeled_line(line, added);
    text::lemma_find(line, '{');
    text::lemma_find(line, ' ');
    text::lemma_find(m, '{');
    assert(m.contains('{')) by {
        match text::find(line, '{') {
            Some(open) => {
                assert(m[open] == '{');
            },
            None => {
                let space = text::find(line, ' ')->0;
                assert(m[space] == '{');
            },
        }
    }
    let at = text::find(m, '{')->0;
    lemma_keeps_start(m, at);
    let (f, g) = lemma_trim_ends(m);
    lemma_trims_to(m, f, g);
    lemma_find_trimmed(m, f, g, '{');
}

/// A space before the value does not count.
proof fn lemma_value_after_space(tail: Seq<char>)
    ensures
        super::counter_value(seq![' '] + tail) == super::counter_value(tail),
{
    let s = seq![' '] + tail;
    assert(s.skip(1) =~= tail);
    assert(text::trim_start(s) == text::trim_start(tail));
}

/// No line of a text holds a newline.
proof fn lemma_lines_end(s: Seq<char>)
    ensures
        forall|i: int| 0 <= i < text::lines(s).len() ==> !(#[trigger] text::lines(s)[i]).contains('\n'),
    decreases s.len(),
{
    if s.len() > 0 {
        text::lemma_find(s, '\n');
        match text::find(s, '\n') {
            None => {},
            Some(k) => {
                let rest = text::lines(s.skip(k + 1));
                lemma_lines_end(s.skip(k + 1));
                let first = text::strip_cr(s.take(k));
                assert forall|j: int| 0 <= j < first.len() implies first[j] != '\n' by {
                    assert(first[j] == s[j]);
                }
                assert forall|i: int| 0 <= i < text::lines(s).len() implies !(
                #[trigger] text::lines(s)[i]).contains('\n') by {
                    if i > 0 {
                        assert(text::lines(s)[i] == rest[i - 1]);
                    }
                }
            },
        }
    }
}

proof fn lemma_labeled_first(ls: Seq<Seq<char>>, added: Seq<char>)
    requires
        ls.len() > 0,
    ensures
        super::labeled_lines(ls, added) == super::labeled_line(ls[0], added).push('\n')
            + super::labeled_lines(ls.skip(1), added),
    decreases ls.len(),
{
    if ls.len() == 1 {
        assert(ls.drop_last() =~= Seq::<Seq<char>>::empty());
        assert(ls.skip(1) =~= Seq::<Seq<char>>::empty());
        assert(super::labeled_lines(ls.drop_last(), added) =~= Seq::<char>::empty());
        assert(super::labeled_lines(ls.skip(1), added) =~= Seq::<char>::empty());
        assert(super::labeled_lines(ls, added) =~= super::labeled_line(ls[0], added).push('\n')
            + super::labeled_lines(ls.skip(1), added));
    } else {
        let d = ls.drop_last();
        lemma_labeled_first(d, added);
        assert(d.skip(1) =~= ls.skip(1).drop_last());
        assert(super::labeled_lines(ls, added) =~= super::labeled_line(ls[0], added).push('\n')
            + super::labeled_lines(ls.skip(1), added));
    }
}

/// A line without a newline has none once labels without one are added.
proof fn lemma_labeled_ends(line: Seq<char>, added: Seq<char>)
    requires
        takes_labels(line),
        !line.contains('\n'),
        !added.contains('\n'),
    ensures
        !super::labeled_line(line, added).contains('\n'),
{
    let m = super::labeled_line(line, added);
    text::lemma_find(line, '{');
    text::lemma_find(line, '}');
    text::lemma_find(line, ' ');
    if m.contains('\n') {
        let k = choose|k: int| 0 <= k < m.len() && m[k] == '\n';
        if super::is_sample(line) {
            match text::find(line, '{') {
                Some(open) => {
                    let close = match text::find(line, '}') {
                        Some(c) => c,
                        None => line.len() as int,
                    };
                    let existing = line.subrange(open + 1, close);
                    let mid = if existing.len() == 0 {
                        Seq::empty()
                    } else {
                        seq![','] + existing
                    };
                    assert(m == line.take(open + 1) + added + mid + line.skip(close));
                    let a = open + 1;
                    let b = a + added.len();
                    let c = b + mid.len();
                    if k < a {
                        assert(m[k] == line[k]);
                    } else if k < b {
                        assert(m[k] == added[k - a]);
                    } else if k < c {
                        assert(m[k] == mid[k - b]);
                        if k > b {
                            assert(mid[k - b] == line[open + k - b]);
                        }
                    } else {
                        assert(m[k] == line[k - c + close]);
                    }
                },
                None => {
                    if let Some(space) = text::find(line, ' ') {
                        let b = space + 1 + added.len();
                        if k < space {
                            assert(m[k] == line[k]);
                        } else if space < k < b {
                            assert(m[k] == added[k - space - 1]);
                        } else if k > b {
                            assert(m[k] == line[k - added.len() - 2]);
                        }
                    }
                },
            }
        }
    }
}

/// Whether asking a labeled text for `asked` comes to asking the text for `labels`.
spec fn asks_alike(
    added: Seq<char>,
    labels: Seq<(&str, &str)>,
    asked: Seq<(&str, &str)>,
) -> bool {
    &&& forall|set: Seq<char>|
        super::has_labels(#[trigger] joined(added, set), asked) == super::has_labels(set, labels)
    &&& super::has_labels(added, asked) == (labels.len() == 0)
}

/// Whether a line takes labels: it has a label set, or a value.
pub open spec fn has_room(line: Seq<char>) -> bool {
    super::is_sample(line) ==> line.contains('{') || line.contains(' ')
}

proof fn lemma_scan(
    ls: Seq<Seq<char>>,
    added: Seq<char>,
    name: Seq<char>,
    labels: Seq<(&str, &str)>,
    asked: Seq<(&str, &str)>,
)
    requires
        forall|i: int| 0 <= i < ls.len() ==> takes_labels(#[trigger] ls[i]),
        forall|i: int| 0 <= i < ls.len() ==> keeps_name(#[trigger] ls[i]),
        forall|i: int| 0 <= i < ls.len() ==> !(#[trigger] ls[i]).contains('\n'),
        !added.contains('}'),
        !added.contains('\n'),
        asks_alike(added, labels, asked),
        (asked.len() == 0 <==> labels.len() == 0) || forall|i: int|
            0 <= i < ls.len() ==> has_room(#[trigger] ls[i]),
    ensures
        super::scan_counter(text::lines(super::labeled_lines(ls, added)), name, asked)
            == super::scan_counter(ls, name, labels),
    decreases ls.len(),
{
    if ls.len() == 0 {
        assert(super::labeled_lines(ls, added) =~= Seq::<char>::empty());
    } else {
        let rest = ls.skip(1);
        let m = super::labeled_line(ls[0], added);
        lemma_labeled_first(ls, added);
        lemma_labeled_ends(ls[0], added);
        text::lemma_first_line(m, super::labeled_lines(rest, added));
        lemma_scan(rest, added, name, labels, asked);
        let out = text::lines(super::labeled_lines(ls, added));
        assert(out.skip(1) =~= text::lines(super::labeled_lines(rest, added)));
        assert(out[0] == text::strip_cr(m));
        if m.len() > 0 && m.last() == '\r' {
            text::lemma_trim_drop(m);
        }
        assert(text::trim(out[0]) == text::trim(m));
        lemma_line(ls[0], added);
        if super::is_sample(ls[0]) {
            match parts_of(text::trim(ls[0])) {
                Parts::Labeled { head, set, tail } => {
                    assert(super::has_labels(joined(added, set), asked) == super::has_labels(
                        set,
                        labels,
                    ));
                },
                Parts::Bare { head, tail } => {
                    lemma_value_after_space(tail);
                    if has_room(ls[0]) {
                        lemma_stays_bare(ls[0], added);
                    }
                    if tail.len() == 0 {
                        assert(tail =~= Seq::<char>::empty());
                    }
                    match parts_of(text::trim(m)) {
                        Parts::Labeled { head: h, set: s, tail: rest } => {
                            if rest.len() == 0 {
                                assert(rest =~= Seq::<char>::empty());
                            }
                        },
                        _ => {},
                    }
                },
                _ => {},
            }
        }
    }
}

proof fn lemma_amount_first(ls: Seq<Seq<char>>, name: Seq<char>)
    requires
        ls.len() > 0,
    ensures
        super::lines_amount(ls, name) == super::line_amount(ls[0], name) + super::lines_amount(
            ls.skip(1),
            name,
        ),
    decreases ls.len(),
{
    if ls.len() == 1 {
        assert(ls.drop_last() =~= Seq::<Seq<char>>::empty());
        assert(ls.skip(1) =~= Seq::<Seq<char>>::empty());
    } else {
        let d = ls.drop_last();
        lemma_amount_first(d, name);
        assert(d.skip(1) =~= ls.skip(1).drop_last());
    }
}

proof fn lemma_amounts(ls: Seq<Seq<char>>, added: Seq<char>, name: Seq<char>)
    requires
        forall|i: int| 0 <= i < ls.len() ==> takes_labels(#[trigger] ls[i]),
        forall|i: int| 0 <= i < ls.len() ==> !(#[trigger] ls[i]).contains('\n'),
        !added.contains('}'),
        !added.contains('\n'),
    ensures
        super::lines_amount(text::lines(super::labeled_lines(ls, added)), name)
            == super::lines_amount(ls, name),
    decreases ls.len(),
{
    if ls.len() == 0 {
        assert(super::labeled_lines(ls, added) =~= Seq::<char>::empty());
    } else {
        let rest = ls.skip(1);
        let m = super::labeled_line(ls[0], added);
        lemma_labeled_first(ls, added);
        lemma_labeled_ends(ls[0], added);
        text::lemma_first_line(m, super::labeled_lines(rest, added));
        lemma_amounts(rest, added, name);
        let out = text::lines(super::labeled_lines(ls, added));
        assert(out.skip(1) =~= text::lines(super::labeled_lines(rest, added)));
        lemma_amount_first(ls, name);
        lemma_amount_first(out, name);
        if m.len() > 0 && m.last() == '\r' {
            text::lemma_trim_drop(m);
        }
        assert(text::trim(out[0]) == text::trim(m));
        lemma_line(ls[0], added);
        if super::is_sample(ls[0]) {
            if let Parts::Bare { head, tail } = parts_of(text::trim(ls[0])) {
                lemma_value_after_space(tail);
            }
        }
    }
}

/// Whether a text still reads as it did once the labels of a node are added to it.
pub open spec fn takes_node(t: Seq<char>, node_id: Seq<char>, hostname: Option<Seq<char>>) -> bool {
    let added = super::node_labels(node_id, hostname);
    &&& !added.contains('}')
    &&& !added.contains('\n')
    &&& forall|i: int| 0 <= i < text::lines(t).len() ==> takes_labels(#[trigger] text::lines(t)[i])
}

/// Whether every sample of a text takes labels.
pub open spec fn all_have_room(t: Seq<char>) -> bool {
    forall|i: int| 0 <= i < text::lines(t).len() ==> has_room(#[trigger] text::lines(t)[i])
}

/// A text to which the labels of a node are added, as
/// [`super::inject_node_label`] writes it.
pub open spec fn with_node(t: Seq<char>, node_id: Seq<char>, hostname: Option<Seq<char>>) -> Seq<
    char,
> {
    super::labeled_lines(text::lines(t), super::node_labels(node_id, hostname))
}

/// Whether a label is none of the added ones: wherever it stands in a label set that
/// begins with them, it stands behind them.
pub open spec fn apart(added: Seq<char>, key: Seq<char>, value: Seq<char>) -> bool {
    forall|set: Seq<char>| #[trigger]
        super::has_label(added + seq![','] + set, key, value) ==> super::has_label(
            set,
            key,
            value,
        )
}

/// Adding the labels of a node changes no total.
pub proof fn labels_change_no_total(
    t: Seq<char>,
    node_id: Seq<char>,
    hostname: Option<Seq<char>>,
    name: Seq<char>,
)
    requires
        takes_node(t, node_id, hostname),
    ensures
        super::lines_amount(text::lines(with_node(t, node_id, hostname)), name)
            == super::lines_amount(text::lines(t), name),
{
    lemma_lines_end(t);
    lemma_amounts(text::lines(t), super::node_labels(node_id, hostname), name);
}

/// Adding labels keeps the lines: there are as many as before, each is the line of before
/// with the labels, and a blank line or a comment is what it was. Each ends with a newline.
pub proof fn labeled_text_keeps_its_lines(
    t: Seq<char>,
    node_id: Seq<char>,
    hostname: Option<Seq<char>>,
)
    requires
        takes_node(t, node_id, hostname),
    ensures
        ({
            let before = text::lines(t);
            let after = text::lines(with_node(t, node_id, hostname));
            let added = super::node_labels(node_id, hostname);
            &&& after.len() == before.len()
            &&& forall|i: int|
                0 <= i < before.len() ==> #[trigger] after[i] == text::strip_cr(
                    super::labeled_line(before[i], added),
                )
            &&& forall|i: int|
                0 <= i < before.len() && !super::is_sample(#[trigger] before[i])
                    ==> super::labeled_line(before[i], added) == before[i]
            &&& before.len() > 0 ==> with_node(t, node_id, hostname).last() == '\n'
        }),
{
    let added = super::node_labels(node_id, hostname);
    lemma_lines_end(t);
    lemma_kept_lines(text::lines(t), added);
    if text::lines(t).len() > 0 {
        assert(super::labeled_lines(text::lines(t), added).last() == '\n');
    }
}

proof fn lemma_kept_lines(ls: Seq<Seq<char>>, added: Seq<char>)
    requires
        forall|i: int| 0 <= i < ls.len() ==> takes_labels(#[trigger] ls[i]),
        forall|i: int| 0 <= i < ls.len() ==> !(#[trigger] ls[i]).contains('\n'),
        !added.contains('\n'),
    ensures
        text::lines(super::labeled_lines(ls, added)).len() == ls.len(),
        forall|i: int|
            0 <= i < ls.len() ==> #[trigger] text::lines(super::labeled_lines(ls, added))[i]
                == text::strip_cr(super::labeled_line(ls[i], added)),
    decreases ls.len(),
{
    if ls.len() == 0 {
        assert(super::labeled_lines(ls, added) =~= Seq::<char>::empty());
    } else {
        let rest = ls.skip(1);
        let m = super::labeled_line(ls[0], added);
        lemma_labeled_first(ls, added);
        lemma_labeled_ends(ls[0], added);
        text::lemma_first_line(m, super::labeled_lines(rest, added));
        lemma_kept_lines(rest, added);
        let out = text::lines(super::labeled_lines(ls, added));
        let later = text::lines(super::labeled_lines(rest, added));
        assert forall|i: int| 0 <= i < ls.len() implies #[trigger] out[i] == text::strip_cr(
            super::labeled_line(ls[i], added),
        ) by {
            if i > 0 {
                assert(out[i] == later[i - 1]);
                assert(rest[i - 1] == ls[i]);
            }
        }
    }
}

proof fn lemma_amounts_add(a: Seq<Seq<char>>, b: Seq<Seq<char>>, name: Seq<char>)
    ensures
        super::lines_amount(a + b, name) == super::lines_amount(a, name) + super::lines_amount(
            b,
            name,
        ),
    decreases b.len(),
{
    if b.len() == 0 {
        assert(a + b =~= a);
    } else {
        lemma_amounts_add(a, b.drop_last(), name);
        assert((a + b).drop_last() =~= a + b.drop_last());
    }
}

/// The total of two texts, one after the other on lines of their own, is the sum of their
/// totals, as far as a counter goes; an empty text has none.
pub proof fn totals_add_up(a: Seq<char>, b: Seq<char>, name: Seq<char>)
    ensures
        super::total_of(a.push('\n') + b, name) == vstd::math::min(
            super::total_of(a, name) + super::total_of(b, name),
            u64::MAX as int,
        ),
        super::total_of(Seq::empty(), name) == 0,
{
    let ended = a.push('\n');
    text::lemma_lines_joined(a, b);
    lemma_amounts_add(text::lines(ended), text::lines(b), name);
    text::lemma_lines_ended(a);
    assert(super::lines_amount(text::lines(ended), name) == super::lines_amount(
        text::lines(a),
        name,
    )) by {
        let x = text::lines(a);
        let none = Seq::<char>::empty();
        if a.len() == 0 || a.last() == '\n' {
            assert(x.push(none).drop_last() =~= x);
            assert(text::trim(none) =~= none) by {
                assert(text::trim_start(none) =~= none);
            }
        } else {
            let last = text::strip_cr(x.last());
            assert(x.drop_last().push(last).drop_last() =~= x.drop_last());
            text::lemma_trim_cr(x.last());
        }
    }
}

/// A label stands in a set that holds one in which it stands.
proof fn lemma_label_inside(
    before: Seq<char>,
    set: Seq<char>,
    after: Seq<char>,
    key: Seq<char>,
    value: Seq<char>,
)
    requires
        super::has_label(set, key, value),
    ensures
        super::has_label(before + set + after, key, value),
{
    let l = super::label_text(key, value);
    let i = choose|i: int| text::occurs_at(set, l, i);
    let whole = before + set + after;
    assert(whole.subrange(before.len() + i, before.len() + i + l.len()) =~= set.subrange(
        i,
        i + l.len(),
    ));
    assert(text::occurs_at(whole, l, before.len() + i));
}

/// In front of other labels, the added ones leave a label that is apart from them where
/// it was.
proof fn lemma_apart(added: Seq<char>, set: Seq<char>, key: Seq<char>, value: Seq<char>)
    requires
        apart(added, key, value),
    ensures
        super::has_label(joined(added, set), key, value) == super::has_label(set, key, value),
        !super::has_label(added, key, value),
{
    reveal_strlit("=\"");
    let none = Seq::<char>::empty();
    assert(!super::has_label(none, key, value));
    if super::has_label(added, key, value) {
        lemma_label_inside(none, added, seq![','] + none, key, value);
        assert(none + added + (seq![','] + none) =~= added + seq![','] + none);
    }
    if set.len() == 0 {
        assert(set =~= none);
    } else if super::has_label(set, key, value) {
        lemma_label_inside(added + seq![','], set, none, key, value);
        assert(added + seq![','] + set + none =~= joined(added, set));
    }
}

/// A label without a comma is apart from added ones among which it does not stand.
pub proof fn plain_label_is_apart(added: Seq<char>, key: Seq<char>, value: Seq<char>)
    requires
        !super::has_label(added, key, value),
        !super::label_text(key, value).contains(','),
    ensures
        apart(added, key, value),
{
    let l = super::label_text(key, value);
    assert forall|set: Seq<char>| #[trigger]
        super::has_label(added + seq![','] + set, key, value) implies super::has_label(
        set,
        key,
        value,
    ) by {
        let whole = added + seq![','] + set;
        let i = choose|i: int| text::occurs_at(whole, l, i);
        let n = added.len() as int;
        if i + l.len() <= n {
            assert(whole.subrange(i, i + l.len()) =~= added.subrange(i, i + l.len()));
            assert(text::occurs_at(added, l, i));
        } else if i <= n {
            assert(whole.subrange(i, i + l.len())[n - i] == whole[n]);
            assert(l[n - i] == ',');
        } else {
            assert(whole.subrange(i, i + l.len()) =~= set.subrange(
                i - n - 1,
                i - n - 1 + l.len(),
            ));
            assert(text::occurs_at(set, l, i - n - 1));
        }
    }
}

/// A label is apart from that of a node, where its key has neither a quote nor a comma and
/// is no end of `node_id`, its value has no quote, and the id of the node has no quote and
/// does not end with an equals sign.
pub proof fn quoted_label_is_apart(node_id: Seq<char>, key: Seq<char>, value: Seq<char>)
    requires
        !node_id.contains('"'),
        node_id.len() > 0 ==> node_id.last() != '=',
        !key.contains('"'),
        !key.contains(','),
        !key.is_suffix_of("node_id"@),
        !value.contains('"'),
    ensures
        apart(super::node_labels(node_id, None), key, value),
{
    let added = super::node_labels(node_id, None);
    let l = super::label_text(key, value);
    let n = added.len() as int;
    reveal_strlit("node_id=\"");
    reveal_strlit("node_id");
    reveal_strlit("=\"");
    reveal_strlit("\"");
    let k = key.len() as int;
    assert(l[k] == '=' && l[k + 1] == '"');
    assert(added[8] == '"' && added[n - 1] == '"' && n == node_id.len() + 10);
    assert forall|i: int| 8 < i < n - 1 implies added[i] != '"' by {
        assert(added[i] == node_id[i - 9]);
    }
    assert forall|i: int| 0 <= i < k implies l[i] != '"' && l[i] != ',' by {
        assert(l[i] == key[i]);
    }
    assert forall|set: Seq<char>| #[trigger]
        super::has_label(added + seq![','] + set, key, value) implies super::has_label(
        set,
        key,
        value,
    ) by {
        let whole = added + seq![','] + set;
        let i = choose|i: int| text::occurs_at(whole, l, i);
        let part = whole.subrange(i, i + l.len());
        assert(part == l);
        if i > n {
            assert(part =~= set.subrange(i - n - 1, i - n - 1 + l.len()));
            assert(text::occurs_at(set, l, i - n - 1));
        } else {
            let q = i + k + 1;
            assert(whole[q] == part[k + 1]);
            assert(whole[q - 1] == part[k]);
            if q == 8 {
                assert(key =~= "node_id"@.subrange(7 - k, 7)) by {
                    assert forall|j: int| 0 <= j < k implies key[j] == "node_id"@[7 - k + j] by {
                        assert(part[j] == whole[i + j]);
                        assert(added[i + j] == "node_id=\""@[i + j]);
                        assert("node_id"@[i + j] == "node_id=\""@[i + j]);
                    }
                }
                assert(key.is_suffix_of("node_id"@));
            } else if q < n - 1 {
                assert(whole[q] == added[q]);
                if q < 8 {
                    assert(added[q] == "node_id=\""@[q]);
                }
            } else if q == n - 1 {
                assert(whole[q - 1] == added[q - 1]);
                if node_id.len() > 0 {
                    assert(added[n - 2] == node_id.last());
                }
            } else {
                if i <= n - 1 {
                    assert(part[n - 1 - i] == whole[n - 1]);
                    assert(n - 1 - i < k);
                } else {
                    assert(k > 0);
                    assert(part[0] == whole[n]);
                }
            }
        }
    }
}

/// A counter is read from the labeled text as it is from the text, and by the label of
/// the node too.
pub proof fn labeled_counter_is_read_alike(
    t: Seq<char>,
    node_id: &str,
    hostname: Option<Seq<char>>,
    name: Seq<char>,
    labels: Seq<(&str, &str)>,
)
    requires
        takes_node(t, node_id@, hostname),
        forall|i: int| 0 <= i < text::lines(t).len() ==> keeps_name(#[trigger] text::lines(t)[i]),
        forall|i: int|
            0 <= i < labels.len() ==> apart(
                super::node_labels(node_id@, hostname),
                (#[trigger] labels[i]).0@,
                labels[i].1@,
            ),
    ensures
        super::counter_in(with_node(t, node_id@, hostname), name, labels) == super::counter_in(
            t,
            name,
            labels,
        ),
        labels.len() > 0 || all_have_room(t) ==> super::counter_in(
            with_node(t, node_id@, hostname),
            name,
            labels.push(("node_id", node_id)),
        ) == super::counter_in(t, name, labels),
{
    let added = super::node_labels(node_id@, hostname);
    let ls = text::lines(t);
    lemma_lines_end(t);
    assert forall|set: Seq<char>|
        super::has_labels(#[trigger] joined(added, set), labels) == super::has_labels(
            set,
            labels,
        ) by {
        assert forall|i: int| 0 <= i < labels.len() implies super::has_label(
            joined(added, set),
            (#[trigger] labels[i]).0@,
            labels[i].1@,
        ) == super::has_label(set, labels[i].0@, labels[i].1@) by {
            lemma_apart(added, set, labels[i].0@, labels[i].1@);
        }
    }
    if labels.len() > 0 {
        lemma_apart(added, Seq::empty(), labels[0].0@, labels[0].1@);
    }
    lemma_scan(ls, added, name, labels, labels);
    if labels.len() > 0 || all_have_room(t) {
        let asked = labels.push(("node_id", node_id));
        if labels.len() > 0 {
            assert(asked[0] == labels[0]);
        } else {
            lemma_names_node(node_id@, hostname, Seq::empty());
            assert(asked[0].0@ == "node_id"@ && asked[0].1@ == node_id@);
        }
        assert forall|set: Seq<char>|
            super::has_labels(#[trigger] joined(added, set), asked) == super::has_labels(
                set,
                labels,
            ) by {
            let whole = joined(added, set);
            lemma_names_node(node_id@, hostname, set);
            assert(super::has_labels(whole, labels) == super::has_labels(set, labels));
            if super::has_labels(whole, asked) {
                assert forall|i: int| 0 <= i < labels.len() implies super::has_label(
                    whole,
                    (#[trigger] labels[i]).0@,
                    labels[i].1@,
                ) by {
                    assert(asked[i] == labels[i]);
                }
            }
            if super::has_labels(whole, labels) {
                assert forall|i: int| 0 <= i < asked.len() implies super::has_label(
                    whole,
                    (#[trigger] asked[i]).0@,
                    asked[i].1@,
                ) by {
                    if i < labels.len() {
                        assert(asked[i] == labels[i]);
                    }
                }
            }
        }
        lemma_scan(ls, added, name, labels, asked);
    }
}

/// With the label of the node besides, a counter is read from the text of the node as it is
/// without: every sample takes labels, the label to be matched is quoted plainly, and the
/// id of the node neither holds a quote or a brace nor ends with an equals sign.
pub proof fn counter_is_read_by_its_node(
    t: Seq<char>,
    node_id: &str,
    name: Seq<char>,
    labels: Seq<(&str, &str)>,
)
    requires
        takes_node(t, node_id@, None),
        all_have_room(t),
        forall|i: int| 0 <= i < text::lines(t).len() ==> keeps_name(#[trigger] text::lines(t)[i]),
        !node_id@.contains('"'),
        node_id@.len() > 0 ==> node_id@.last() != '=',
        forall|i: int|
            0 <= i < labels.len() ==> {
                &&& !(#[trigger] labels[i]).0@.contains('"')
                &&& !labels[i].0@.contains(',')
                &&& !labels[i].0@.is_suffix_of("node_id"@)
                &&& !labels[i].1@.contains('"')
            },
    ensures
        super::counter_in(
            with_node(t, node_id@, None),
            name,
            labels.push(("node_id", node_id)),
        ) == super::counter_in(t, name, labels),
{
    assert forall|i: int| 0 <= i < labels.len() implies apart(
        super::node_labels(node_id@, None),
        (#[trigger] labels[i]).0@,
        labels[i].1@,
    ) by {
        quoted_label_is_apart(node_id@, labels[i].0@, labels[i].1@);
    }
    labeled_counter_is_read_alike(t, node_id, None, name, labels);
}

/// A label set to which the labels of a node are added names the node.
proof fn lemma_names_node(node_id: Seq<char>, hostname: Option<Seq<char>>, set: Seq<char>)
    ensures
        super::has_label(
            joined(super::node_labels(node_id, hostname), set),
            "node_id"@,
            node_id,
        ),
{
    reveal_strlit("node_id=\"");
    reveal_strlit("node_id");
    reveal_strlit("=\"");
    let l = super::label_text("node_id"@, node_id);
    assert("node_id"@ + "=\""@ =~= "node_id=\""@);
    assert(l =~= "node_id=\""@ + node_id + "\""@);
    let whole = joined(super::node_labels(node_id, hostname), set);
    assert(whole.subrange(0, l.len() as int) =~= l);
    assert(text::occurs_at(whole, l, 0));
}

/// Every sample with a value or a label set names its node once the labels of the node
/// are added to it.
pub proof fn labeled_sample_names_its_node(
    line: Seq<char>,
    node_id: Seq<char>,
    hostname: Option<Seq<char>>,
)
    requires
        super::is_sample(line),
        line.contains('{') || line.contains(' '),
    ensures
        text::occurs(
            super::labeled_line(line, super::node_labels(node_id, hostname)),
            super::label_text("node_id"@, node_id),
        ),
{
    let added = super::node_labels(node_id, hostname);
    let m = super::labeled_line(line, added);
    let none = Seq::<char>::empty();
    text::lemma_find(line, '{');
    text::lemma_find(line, '}');
    text::lemma_find(line, ' ');
    lemma_names_node(node_id, hostname, none);
    let at = match text::find(line, '{') {
        Some(open) => open + 1,
        None => text::find(line, ' ')->0 + 1,
    };
    assert(m =~= m.take(at) + added + m.skip(at + added.len()));
    lemma_label_inside(
        m.take(at),
        added,
        m.skip(at + added.len()),
        "node_id"@,
        node_id,
    );
}

/// Whether a text can name a metric: it holds neither a brace nor white space, and does not
/// begin a comment.
pub open spec fn is_metric_name(name: Seq<char>) -> bool {
    &&& name.len() > 0
    &&& name[0] != '#'
    &&& forall|i: int|
        0 <= i < name.len() ==> (#[trigger] name[i]) != '{' && name[i] != '}'
            && !text::white_space(name[i])
}

/// The line on which a sample of a counter is written down.
pub open spec fn sample_line(name: Seq<char>, set: Seq<char>, n: nat) -> Seq<char> {
    name + seq!['{'] + set + seq!['}', ' '] + text::decimal(n)
}

/// The first word of digits behind a blank are the digits.
proof fn lemma_value_behind_blank(n: nat)
    requires
        n <= u64::MAX,
    ensures
        super::counter_value(seq![' '] + text::decimal(n)) == Some(n),
{
    let d = text::decimal(n);
    let s = seq![' '] + d;
    text::decimal_round_trip(n);
    lemma_digits_are_solid(d);
    lemma_trim_start(s, 1);
    assert(s.skip(1) =~= d);
    lemma_solid_word(d);
}

/// Digits are no white space, nor a sign.
proof fn lemma_digits_are_solid(d: Seq<char>)
    requires
        text::all_digits(d),
    ensures
        forall|i: int|
            0 <= i < d.len() ==> !text::white_space(#[trigger] d[i]) && d[i] != '+' && d[i] != '{'
                && d[i] != '}' && d[i] != '\r' && d[i] != '\n',
{
}

/// A text without white space is one word.
proof fn lemma_solid_word(s: Seq<char>)
    requires
        forall|i: int| 0 <= i < s.len() ==> !text::white_space(#[trigger] s[i]),
    ensures
        text::word_prefix(s) == s,
    decreases s.len(),
{
    if s.len() > 0 {
        let t = s.skip(1);
        assert forall|i: int| 0 <= i < t.len() implies !text::white_space(#[trigger] t[i]) by {
            assert(t[i] == s[i + 1]);
        }
        assert(!text::white_space(s[0]));
        lemma_solid_word(t);
        assert(seq![s[0]] + t =~= s);
    } else {
        assert(text::word_prefix(s) =~= s);
    }
}

/// The parts of a line on which a sample is written down.
proof fn lemma_sample_line(name: Seq<char>, set: Seq<char>, n: nat)
    requires
        is_metric_name(name),
        !set.contains('}'),
        !set.contains('\n'),
    ensures
        ({
            let line = sample_line(name, set, n);
            let open = name.len() as int;
            let close = open + 1 + set.len();
            &&& !line.contains('\n')
            &&& text::strip_cr(line) == line
            &&& text::trim(line) == line
            &&& super::is_sample(line)
            &&& text::find(line, '{') == Some(open)
            &&& text::find(line, '}') == Some(close)
            &&& line.take(open) == name
            &&& line.subrange(open + 1, close) == set
            &&& line.skip(close + 1) == seq![' '] + text::decimal(n)
        }),
{
    let line = sample_line(name, set, n);
    let d = text::decimal(n);
    let open = name.len() as int;
    let close = open + 1 + set.len();
    text::decimal_round_trip(n);
    lemma_digits_are_solid(d);
    assert(line.len() == close + 2 + d.len());
    assert(line[line.len() - 1] == d[d.len() - 1]);
    assert(line[0] == name[0]);
    assert(line[open] == '{' && line[close] == '}' && line[close + 1] == ' ');
    assert(trims_to(line, 0, line.len() as int));
    lemma_trims_to(line, 0, line.len() as int);
    assert(line.subrange(0, line.len() as int) =~= line);
    assert forall|j: int| 0 <= j < open implies line[j] != '{' && line[j] != '}' by {
        assert(line[j] == name[j]);
    }
    assert forall|j: int| 0 <= j < close implies line[j] != '}' by {
        if j > open {
            assert(line[j] == set[j - open - 1]);
            assert(set.contains(set[j - open - 1]));
        }
    }
    text::lemma_find_some(line, '{', open);
    text::lemma_find_some(line, '}', close);
    assert forall|j: int| 0 <= j < line.len() implies line[j] != '\n' by {
        if j < open {
            assert(line[j] == name[j]);
        } else if open < j < close {
            assert(line[j] == set[j - open - 1]);
            assert(set.contains(set[j - open - 1]));
        } else if j > close + 1 {
            assert(line[j] == d[j - close - 2]);
        }
    }
    assert(line.take(open) =~= name);
    assert(line.subrange(open + 1, close) =~= set);
    assert(line.skip(close + 1) =~= seq![' '] + d);
}

/// A counter that is written down on the first line of a text is read as it was written,
/// by its name and any of its labels.
pub proof fn written_counter_is_read(
    name: Seq<char>,
    set: Seq<char>,
    n: nat,
    labels: Seq<(&str, &str)>,
    rest: Seq<char>,
)
    requires
        is_metric_name(name),
        !set.contains('}'),
        !set.contains('\n'),
        n <= u64::MAX,
        forall|i: int|
            0 <= i < labels.len() ==> text::occurs(
                set,
                (#[trigger] labels[i]).0@ + "=\""@ + labels[i].1@ + "\""@,
            ),
    ensures
        super::counter_in(sample_line(name, set, n).push('\n') + rest, name, labels) == Some(
            Some(n),
        ),
{
    let line = sample_line(name, set, n);
    let t = line.push('\n') + rest;
    lemma_sample_line(name, set, n);
    text::lemma_first_line(line, rest);
    assert(text::lines(t)[0] == line);
    lemma_value_behind_blank(n);
}

/// A counter that is written down on the first line of a text under another name, or
/// without one of the labels, is passed over: what is read is what the rest of the text
/// says.
pub proof fn other_counter_is_passed_over(
    name: Seq<char>,
    set: Seq<char>,
    n: nat,
    asked: Seq<char>,
    labels: Seq<(&str, &str)>,
    rest: Seq<char>,
)
    requires
        is_metric_name(name),
        !set.contains('}'),
        !set.contains('\n'),
        name != asked || exists|i: int|
            0 <= i < labels.len() && !text::occurs(
                set,
                (#[trigger] labels[i]).0@ + "=\""@ + labels[i].1@ + "\""@,
            ),
    ensures
        super::counter_in(sample_line(name, set, n).push('\n') + rest, asked, labels)
            == super::counter_in(rest, asked, labels),
{
    let line = sample_line(name, set, n);
    let t = line.push('\n') + rest;
    lemma_sample_line(name, set, n);
    text::lemma_first_line(line, rest);
    assert(text::lines(t)[0] == line);
    assert(text::lines(t).skip(1) =~= text::lines(rest));
    if name == asked {
        let i = choose|i: int|
            0 <= i < labels.len() && !text::occurs(
                set,
                (#[trigger] labels[i]).0@ + "=\""@ + labels[i].1@ + "\""@,
            );
        assert(!super::has_label(set, labels[i].0@, labels[i].1@));
    }
}

/// A counter that is written down adds its value to the total of its metric, and nothing to
/// that of another.
pub proof fn written_counter_counts(
    name: Seq<char>,
    set: Seq<char>,
    n: nat,
    asked: Seq<char>,
    rest: Seq<char>,
)
    requires
        is_metric_name(name),
        !set.contains('}'),
        !set.contains('\n'),
        n <= u64::MAX,
    ensures
        super::total_of(sample_line(name, set, n).push('\n') + rest, asked) == vstd::math::min(
            (if name == asked {
                n as int
            } else {
                0
            }) + super::total_of(rest, asked),
            u64::MAX as int,
        ),
{
    let line = sample_line(name, set, n);
    lemma_sample_line(name, set, n);
    lemma_value_behind_blank(n);
    text::lemma_first_line(line, rest);
    lemma_amounts_add(seq![line], text::lines(rest), asked);
    assert(seq![line].drop_last() =~= Seq::<Seq<char>>::empty());
    assert(seq![line].last() == line);
    assert(super::lines_amount(Seq::<Seq<char>>::empty(), asked) == 0);
    assert(super::lines_amount(seq![line], asked) == super::line_amount(line, asked));
}

/// A counter of an interface and direction that is written down on the first line of a text
/// is the figure of its name in the stats of the interface and direction. What an interface
/// sends is what counts in the direction egress, what it receives in any other.
pub proof fn figure_is_that_of_its_counter(
    metric: Seq<char>,
    set: Seq<char>,
    n: nat,
    rest: Seq<char>,
    interface: &str,
    direction: &str,
    s: super::InterfaceStats,
)
    requires
        is_metric_name(metric),
        !set.contains('}'),
        !set.contains('\n'),
        n <= u64::MAX,
        text::occurs(set, "interface"@ + "=\""@ + interface@ + "\""@),
        text::occurs(set, "direction"@ + "=\""@ + direction@ + "\""@),
        super::reads_stats(
            sample_line(metric, set, n).push('\n') + rest,
            interface,
            direction,
            s,
        ),
    ensures
        metric == "policy_engine_rx_packets_total"@ && direction@ != "egress"@ ==> s.rx_packets
            == n,
        metric == "policy_engine_rx_bytes_total"@ && direction@ != "egress"@ ==> s.rx_bytes == n,
        metric == "policy_engine_tx_packets_total"@ && direction@ == "egress"@ ==> s.rx_packets
            == n,
        metric == "policy_engine_tx_bytes_total"@ && direction@ == "egress"@ ==> s.rx_bytes == n,
        metric == "policy_engine_tx_packets_total"@ ==> s.tx_packets == n,
        metric == "policy_engine_tx_bytes_total"@ ==> s.tx_bytes == n,
        metric == "policy_engine_policy_matches_total"@ ==> s.policy_matches == n,
        metric == "policy_engine_policy_drops_total"@ ==> s.policy_drops == n,
        metric == "policy_engine_policy_pass_total"@ ==> s.policy_pass == n,
        metric == "policy_engine_policy_redirects_total"@ ==> s.policy_redirects == n,
        metric == "policy_engine_parse_errors_total"@ ==> s.parse_errors == n,
        metric == "policy_engine_tail_calls_total"@ ==> s.tail_calls == n,
        metric == "policy_engine_bum_packets_total"@ ==> s.bum_packets == n,
        metric == "policy_engine_non_ip_unicast_total"@ ==> s.non_ip_unicast == n,
        metric == "policy_engine_inspect_redirects_total"@ ==> s.inspect_redirects == n,
        metric == "policy_engine_fragments_total"@ ==> s.fragments == n,
        metric == "policy_engine_verdict_pass_packets_total"@ ==> s.verdict_pass_packets == n,
        metric == "policy_engine_verdict_pass_bytes_total"@ ==> s.verdict_pass_bytes == n,
        metric == "policy_engine_verdict_drop_packets_total"@ ==> s.verdict_drop_packets == n,
        metric == "policy_engine_verdict_drop_bytes_total"@ ==> s.verdict_drop_bytes == n,
        metric == "policy_engine_fib_forwarded_packets_total"@ ==> s.fib_forwarded_packets == n,
        metric == "policy_engine_fib_forwarded_bytes_total"@ ==> s.fib_forwarded_bytes == n,
        metric == "policy_engine_fib_fallback_packets_total"@ ==> s.fib_fallback_packets == n,
        metric == "policy_engine_urpf_drop_packets_total"@ ==> s.urpf_drop_packets == n,
        metric == "policy_engine_urpf_drop_bytes_total"@ ==> s.urpf_drop_bytes == n,
{
    let labels = super::interface_labels(interface, direction);
    assert(labels[0].0@ == "interface"@ && labels[0].1@ == interface@);
    assert(labels[1].0@ == "direction"@ && labels[1].1@ == direction@);
    written_counter_is_read(metric, set, n, labels, rest);
}

/// The value of a label is what stands between the quotation marks behind the first place
/// where its key stands with them.
pub proof fn label_is_read_as_written(
    before: Seq<char>,
    key: Seq<char>,
    value: Seq<char>,
    behind: Seq<char>,
)
    requires
        !value.contains('"'),
        forall|j: int|
            0 <= j < before.len() ==> !#[trigger] text::occurs_at(
                before + key + "=\""@ + value + "\""@ + behind,
                key + "=\""@,
                j,
            ),
    ensures
        super::label_value(before + key + "=\""@ + value + "\""@ + behind, key) == Some(value),
{
    reveal_strlit("=\"");
    reveal_strlit("\"");
    let set = before + key + "=\""@ + value + "\""@ + behind;
    let prefix = key + "=\""@;
    let n = before.len() as int;
    assert(set.subrange(n, n + prefix.len()) =~= prefix);
    assert(text::occurs_at(set, prefix, n));
    assert(text::first_occurs_at(set, prefix, n));
    let start = choose|i: int| text::first_occurs_at(set, prefix, i);
    assert(text::first_occurs_at(set, prefix, start));
    assert(start == n) by {
        if start < n {
            assert(!text::occurs_at(set, prefix, start));
        }
        if n < start {
            assert(!text::occurs_at(set, prefix, n));
        }
    }
    let tail = set.skip(n + prefix.len());
    assert(tail =~= value + "\""@ + behind);
    let m = value.len() as int;
    assert(tail[m] == '"');
    assert forall|j: int| 0 <= j < m implies tail[j] != '"' by {
        assert(tail[j] == value[j]);
        assert(value.contains(value[j]));
    }
    text::lemma_find_some(tail, '"', m);
    assert(tail.take(m) =~= value);
}

/// A bucket of the ethertype counter that is written down for an interface and direction is
/// read as it was written: its number, its name and its count.
pub proof fn written_bucket_is_read(
    set: Seq<char>,
    kind: nat,
    name: Seq<char>,
    n: nat,
    interface: Seq<char>,
    direction: Seq<char>,
)
    requires
        !set.contains('}'),
        !set.contains('\n'),
        n <= u64::MAX,
        kind <= u32::MAX,
        text::occurs(set, "interface"@ + "=\""@ + interface + "\""@),
        text::occurs(set, "direction"@ + "=\""@ + direction + "\""@),
        super::label_value(set, "ethertype"@) == Some(text::decimal(kind)),
        super::label_value(set, "ethertype_name"@) == Some(name),
    ensures
        super::line_ethertype(
            sample_line("policy_engine_ethertype_packets_total"@, set, n),
            interface,
            direction,
        ) == Some((kind, name, n)),
{
    let metric = "policy_engine_ethertype_packets_total"@;
    reveal_strlit("policy_engine_ethertype_packets_total");
    assert(is_metric_name(metric));
    lemma_sample_line(metric, set, n);
    lemma_value_behind_blank(n);
    text::decimal_round_trip(kind);
    lemma_digits_are_solid(text::decimal(kind));
}

/// Each bucket that is listed is that of one line, in the order of the lines; a line that
/// holds none takes none of the others with it.
pub proof fn buckets_are_listed_line_by_line(
    a: Seq<Seq<char>>,
    b: Seq<Seq<char>>,
    interface: Seq<char>,
    direction: Seq<char>,
)
    ensures
        super::ethertypes_in(a + b, interface, direction) == super::ethertypes_in(
            a,
            interface,
            direction,
        ) + super::ethertypes_in(b, interface, direction),
    decreases b.len(),
{
    if b.len() == 0 {
        assert(a + b =~= a);
        assert(super::ethertypes_in(a, interface, direction) + super::ethertypes_in(
            b,
            interface,
            direction,
        ) =~= super::ethertypes_in(a, interface, direction));
    } else {
        buckets_are_listed_line_by_line(a, b.drop_last(), interface, direction);
        assert((a + b).drop_last() =~= a + b.drop_last());
        assert((a + b).last() == b.last());
        assert(super::ethertypes_in(a + b, interface, direction) =~= super::ethertypes_in(
            a,
            interface,
            direction,
        ) + super::ethertypes_in(b, interface, direction));
    }
}

} // verus!
