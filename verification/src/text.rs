//! Text as sequences of characters: splitting, trimming, searching, and the
//! decimal notation of integers.

use vstd::prelude::*;

verus! {

broadcast use vstd::string::group_string_axioms;

/// `String::push` appends one character.
pub assume_specification[ String::push ](s: &mut String, c: char)
    ensures
        final(s)@ == old(s)@.push(c),
;

/// `String::push_str` appends a whole string slice.
pub assume_specification[ String::push_str ](s: &mut String, t: &str)
    ensures
        final(s)@ == old(s)@ + t@,
;

/// `==` on string slices compares them character by character.
pub assume_specification[ <str as PartialEq<str>>::eq ](a: &str, b: &str) -> (r: bool)
    ensures
        r == (a@ == b@),
;

/// The view of an optional string.
pub open spec fn opt_text(o: Option<String>) -> Option<Seq<char>> {
    match o {
        Some(s) => Some(s@),
        None => None,
    }
}

/// The view of an optional string slice.
pub open spec fn opt_str(o: Option<&str>) -> Option<Seq<char>> {
    match o {
        Some(s) => Some(s@),
        None => None,
    }
}

/// Whether two string slices hold the same characters.
pub fn same(a: &str, b: &str) -> (r: bool)
    ensures
        r == (a@ == b@),
{
    *a == *b
}

/// Whether two optional strings are both absent, or present and equal.
pub fn same_opt(a: &Option<String>, b: &Option<String>) -> (r: bool)
    ensures
        r == (opt_text(*a) == opt_text(*b)),
{
    match (a, b) {
        (Some(x), Some(y)) => same(x.as_str(), y.as_str()),
        (None, None) => true,
        _ => false,
    }
}

/// An owned copy of an optional string slice.
pub fn owned_opt(o: Option<&str>) -> (r: Option<String>)
    ensures
        opt_text(r) == opt_str(o),
{
    match o {
        Some(s) => Some(s.to_string()),
        None => None,
    }
}

/// The characters of a string slice.
pub fn chars_of(s: &str) -> (v: Vec<char>)
    ensures
        v@ == s@,
{
    let mut v: Vec<char> = Vec::new();
    for c in it: s.chars()
        invariant
            v@ == it.seq().take(it.index()),
            it.seq() == s@,
    {
        v.push(c);
    }
    v
}

/// The string made of the given characters.
pub fn string_of(v: &Vec<char>) -> (s: String)
    ensures
        s@ == v@,
{
    let mut s: String = String::new();
    let mut i: usize = 0;
    while i < v.len()
        invariant
            i <= v@.len(),
            s@ == v@.take(i as int),
        decreases v@.len() - i,
    {
        s.push(v[i]);
        i = i + 1;
        assert(v@.take(i as int) =~= v@.take(i - 1).push(v@[i - 1]));
    }
    assert(v@.take(i as int) =~= v@);
    s
}

/// Two strings one after the other.
pub fn concat2(a: &str, b: &str) -> (s: String)
    ensures
        s@ == a@ + b@,
{
    let mut s: String = a.to_string();
    s.push_str(b);
    s
}

/// Three strings one after the other.
pub fn concat3(a: &str, b: &str, c: &str) -> (s: String)
    ensures
        s@ == a@ + b@ + c@,
{
    let mut s: String = a.to_string();
    s.push_str(b);
    s.push_str(c);
    s
}

/// Four strings one after the other.
pub fn concat4(a: &str, b: &str, c: &str, d: &str) -> (s: String)
    ensures
        s@ == a@ + b@ + c@ + d@,
{
    let mut s: String = concat3(a, b, c);
    s.push_str(d);
    s
}

/// The characters from index `from` up to, not including, index `to`.
pub fn slice(v: &Vec<char>, from: usize, to: usize) -> (r: Vec<char>)
    requires
        from <= to <= v@.len(),
    ensures
        r@ == v@.subrange(from as int, to as int),
{
    let mut r: Vec<char> = Vec::new();
    let mut i: usize = from;
    while i < to
        invariant
            from <= i <= to <= v@.len(),
            r@ == v@.subrange(from as int, i as int),
        decreases to - i,
    {
        r.push(v[i]);
        i = i + 1;
        assert(v@.subrange(from as int, i as int) =~= v@.subrange(from as int, i - 1).push(
            v@[i - 1],
        ));
    }
    r
}

/// Whether two character vectors hold the same characters.
pub fn same_chars(a: &Vec<char>, b: &Vec<char>) -> (r: bool)
    ensures
        r == (a@ == b@),
{
    if a.len() != b.len() {
        return false;
    }
    let mut i: usize = 0;
    while i < a.len()
        invariant
            i <= a@.len() == b@.len(),
            forall|j: int| 0 <= j < i ==> a@[j] == b@[j],
        decreases a@.len() - i,
    {
        if a[i] != b[i] {
            return false;
        }
        i = i + 1;
    }
    assert(a@ =~= b@);
    true
}

/// `i` is the first position at which `c` stands in `s`.
pub open spec fn first_at(s: Seq<char>, c: char, i: int) -> bool {
    0 <= i < s.len() && s[i] == c && forall|j: int| 0 <= j < i ==> s[j] != c
}

/// The first position of `c` in `s`, if it occurs at all.
pub open spec fn find(s: Seq<char>, c: char) -> Option<int> {
    if s.contains(c) {
        Some(choose|i: int| first_at(s, c, i))
    } else {
        None
    }
}

/// A first position, once found, is the result of `find`.
pub proof fn lemma_find_some(s: Seq<char>, c: char, i: int)
    requires
        first_at(s, c, i),
    ensures
        find(s, c) == Some(i),
{
    assert(s.contains(c));
    let k = choose|k: int| first_at(s, c, k);
    assert(first_at(s, c, k));
    if k < i {
        assert(s[k] != c);
    }
    if i < k {
        assert(s[i] != c);
    }
}

/// What `find` returns is a first position, and it misses only absent characters.
pub proof fn lemma_find(s: Seq<char>, c: char)
    ensures
        find(s, c) matches Some(i) ==> first_at(s, c, i),
        find(s, c) is None <==> !s.contains(c),
    decreases s.len(),
{
    if s.contains(c) {
        let k = choose|k: int| 0 <= k < s.len() && s[k] == c;
        if s.take(k).contains(c) {
            lemma_find(s.take(k), c);
            let i = find(s.take(k), c)->0;
            assert(first_at(s, c, i)) by {
                assert(s.take(k)[i] == s[i]);
                assert forall|j: int| 0 <= j < i implies s[j] != c by {
                    assert(s.take(k)[j] == s[j]);
                }
            }
            lemma_find_some(s, c, i);
        } else {
            assert forall|j: int| 0 <= j < k implies s[j] != c by {
                if s[j] == c {
                    assert(s.take(k)[j] == c);
                }
            }
            lemma_find_some(s, c, k);
        }
    }
}

/// The first position of `c` in `v`.
pub fn find_char(v: &Vec<char>, c: char) -> (r: Option<usize>)
    ensures
        match r {
            Some(i) => find(v@, c) == Some(i as int) && i < v.len(),
            None => find(v@, c) is None,
        },
{
    let mut i: usize = 0;
    while i < v.len()
        invariant
            i <= v@.len(),
            forall|j: int| 0 <= j < i ==> v@[j] != c,
        decreases v@.len() - i,
    {
        if v[i] == c {
            proof {
                lemma_find_some(v@, c, i as int);
            }
            return Some(i);
        }
        i = i + 1;
    }
    None
}

/// Whether `needle` stands in `hay` at position `i`.
pub open spec fn occurs_at(hay: Seq<char>, needle: Seq<char>, i: int) -> bool {
    0 <= i && i + needle.len() <= hay.len() && hay.subrange(i, i + needle.len()) == needle
}

/// Whether `needle` occurs in `hay`.
pub open spec fn occurs(hay: Seq<char>, needle: Seq<char>) -> bool {
    exists|i: int| occurs_at(hay, needle, i)
}

/// `i` is the first position at which `needle` stands in `hay`.
pub open spec fn first_occurs_at(hay: Seq<char>, needle: Seq<char>, i: int) -> bool {
    occurs_at(hay, needle, i) && forall|j: int| 0 <= j < i ==> !occurs_at(hay, needle, j)
}

/// Whether `needle` stands in `hay` at position `i`.
pub fn matches_at(hay: &Vec<char>, needle: &Vec<char>, i: usize) -> (r: bool)
    ensures
        r == occurs_at(hay@, needle@, i as int),
{
    if i > hay.len() || needle.len() > hay.len() - i {
        return false;
    }
    let mut j: usize = 0;
    while j < needle.len()
        invariant
            j <= needle@.len(),
            i + needle.len() <= hay.len(),
            forall|k: int| 0 <= k < j ==> hay@[i + k] == needle@[k],
        decreases needle@.len() - j,
    {
        if hay[i + j] != needle[j] {
            assert(hay@.subrange(i as int, i + needle@.len())[j as int] != needle@[j as int]);
            return false;
        }
        j = j + 1;
    }
    assert(hay@.subrange(i as int, i + needle@.len()) =~= needle@);
    true
}

/// The first position at which `needle` stands in `hay`.
pub fn find_text(hay: &Vec<char>, needle: &Vec<char>) -> (r: Option<usize>)
    ensures
        match r {
            Some(i) => first_occurs_at(hay@, needle@, i as int) && i + needle.len() <= hay.len(),
            None => !occurs(hay@, needle@),
        },
{
    let mut i: usize = 0;
    loop
        invariant
            i <= hay@.len(),
            forall|j: int| 0 <= j < i ==> !occurs_at(hay@, needle@, j),
        decreases hay@.len() - i,
    {
        if matches_at(hay, needle, i) {
            return Some(i);
        }
        if i == hay.len() {
            assert forall|j: int| !occurs_at(hay@, needle@, j) by {}
            return None;
        }
        i = i + 1;
    }
}

/// Whether the character has the Unicode property White_Space.
pub open spec fn white_space(c: char) -> bool {
    ||| 0x09 <= c as u32 <= 0x0d
    ||| c as u32 == 0x20
    ||| c as u32 == 0x85
    ||| c as u32 == 0xa0
    ||| c as u32 == 0x1680
    ||| 0x2000 <= c as u32 <= 0x200a
    ||| c as u32 == 0x2028
    ||| c as u32 == 0x2029
    ||| c as u32 == 0x202f
    ||| c as u32 == 0x205f
    ||| c as u32 == 0x3000
}

/// Whether the character has the Unicode property White_Space.
pub fn is_white_space(c: char) -> (r: bool)
    ensures
        r == white_space(c),
{
    let u: u32 = c as u32;
    (0x09 <= u && u <= 0x0d) || u == 0x20 || u == 0x85 || u == 0xa0 || u == 0x1680 || (0x2000 <= u
        && u <= 0x200a) || u == 0x2028 || u == 0x2029 || u == 0x202f || u == 0x205f || u == 0x3000
}

/// The text without the white space at its start.
pub open spec fn trim_start(s: Seq<char>) -> Seq<char>
    decreases s.len(),
{
    if s.len() > 0 && white_space(s[0]) {
        trim_start(s.skip(1))
    } else {
        s
    }
}

/// The text without the white space at its end.
pub open spec fn trim_end(s: Seq<char>) -> Seq<char>
    decreases s.len(),
{
    if s.len() > 0 && white_space(s.last()) {
        trim_end(s.drop_last())
    } else {
        s
    }
}

/// The text without the white space at its start and end.
pub open spec fn trim(s: Seq<char>) -> Seq<char> {
    trim_end(trim_start(s))
}

/// The text without the white space at its start and end.
pub fn trimmed(v: &Vec<char>) -> (r: Vec<char>)
    ensures
        r@ == trim(v@),
{
    let mut from: usize = 0;
    assert(v@.skip(0) =~= v@);
    while from < v.len() && is_white_space(v[from])
        invariant
            from <= v@.len(),
            trim_start(v@) == trim_start(v@.skip(from as int)),
        decreases v@.len() - from,
    {
        assert(v@.skip(from as int).skip(1) =~= v@.skip(from + 1));
        from = from + 1;
    }
    assert(trim_start(v@) == v@.skip(from as int));
    let mut to: usize = v.len();
    assert(v@.subrange(from as int, to as int) =~= v@.skip(from as int));
    while to > from && is_white_space(v[to - 1])
        invariant
            from <= to <= v@.len(),
            trim(v@) == trim_end(v@.subrange(from as int, to as int)),
        decreases to,
    {
        assert(v@.subrange(from as int, to as int).drop_last() =~= v@.subrange(
            from as int,
            to - 1,
        ));
        to = to - 1;
    }
    slice(v, from, to)
}

/// One line without the carriage return that may end it.
pub open spec fn strip_cr(s: Seq<char>) -> Seq<char> {
    if s.len() > 0 && s.last() == '\r' {
        s.drop_last()
    } else {
        s
    }
}

/// The lines of a text. A line ends at a newline, which may follow a carriage
/// return; the end of the text ends the last line unless it is empty.
pub open spec fn lines(s: Seq<char>) -> Seq<Seq<char>>
    decreases s.len(),
{
    if s.len() == 0 {
        Seq::empty()
    } else {
        proof {
            lemma_find(s, '\n');
        }
        match find(s, '\n') {
            None => seq![s],
            Some(i) => seq![strip_cr(s.take(i))] + lines(s.skip(i + 1)),
        }
    }
}

/// White space at the end does not count.
pub proof fn lemma_trim_drop(s: Seq<char>)
    requires
        s.len() > 0,
        white_space(s.last()),
    ensures
        trim(s.drop_last()) == trim(s),
    decreases s.len(),
{
    if white_space(s[0]) {
        if s.len() == 1 {
            assert(s.skip(1) =~= Seq::<char>::empty());
            assert(s.drop_last() =~= Seq::<char>::empty());
        } else {
            lemma_trim_drop(s.skip(1));
            assert(s.drop_last().skip(1) =~= s.skip(1).drop_last());
        }
    } else {
        assert(s.drop_last()[0] == s[0]);
    }
}

/// The first line of a text that begins with one.
pub proof fn lemma_first_line(u: Seq<char>, w: Seq<char>)
    requires
        !u.contains('\n'),
    ensures
        lines(u.push('\n') + w) == seq![strip_cr(u)] + lines(w),
{
    let s = u.push('\n') + w;
    assert(s[u.len() as int] == '\n');
    assert forall|j: int| 0 <= j < u.len() implies s[j] != '\n' by {
        assert(s[j] == u[j]);
    }
    lemma_find_some(s, '\n', u.len() as int);
    assert(s.take(u.len() as int) =~= u);
    assert(s.skip(u.len() as int + 1) =~= w);
}

/// A carriage return at the end does not count.
pub proof fn lemma_trim_cr(s: Seq<char>)
    ensures
        trim(strip_cr(s)) == trim(s),
{
    if s.len() > 0 && s.last() == '\r' {
        lemma_trim_drop(s);
    }
}

/// The lines of a text that goes on after a newline are its own and those of what
/// follows.
pub proof fn lemma_lines_joined(a: Seq<char>, b: Seq<char>)
    ensures
        lines(a.push('\n') + b) == lines(a.push('\n')) + lines(b),
    decreases a.len(),
{
    lemma_find(a, '\n');
    match find(a, '\n') {
        None => {
            assert(!a.contains('\n'));
            lemma_first_line(a, b);
            lemma_first_line(a, Seq::empty());
            assert(a.push('\n') + Seq::<char>::empty() =~= a.push('\n'));
            assert(lines(a.push('\n')) + lines(b) =~= lines(a.push('\n') + b));
        },
        Some(k) => {
            let u = a.take(k);
            let w = a.skip(k + 1);
            assert(!u.contains('\n'));
            lemma_lines_joined(w, b);
            lemma_first_line(u, w.push('\n') + b);
            lemma_first_line(u, w.push('\n'));
            assert(a.push('\n') + b =~= u.push('\n') + (w.push('\n') + b));
            assert(a.push('\n') =~= u.push('\n') + w.push('\n'));
            assert(lines(a.push('\n') + b) =~= lines(a.push('\n')) + lines(b));
        },
    }
}

/// A newline at the end of a text adds an empty line where the last line is ended or
/// there is none; else it ends the last line.
pub proof fn lemma_lines_ended(a: Seq<char>)
    ensures
        a.len() == 0 || a.last() == '\n' ==> lines(a.push('\n')) == lines(a).push(Seq::empty()),
        a.len() > 0 && a.last() != '\n' ==> lines(a).len() > 0 && lines(a.push('\n')) == lines(
            a,
        ).drop_last().push(strip_cr(lines(a).last())),
    decreases a.len(),
{
    lemma_find(a, '\n');
    match find(a, '\n') {
        None => {
            assert(!a.contains('\n'));
            lemma_first_line(a, Seq::empty());
            assert(a.push('\n') + Seq::<char>::empty() =~= a.push('\n'));
            if a.len() == 0 {
                assert(strip_cr(a) =~= Seq::<char>::empty());
                assert(lines(a.push('\n')) =~= lines(a).push(Seq::empty()));
            } else {
                assert(lines(a) == seq![a]);
                assert(lines(a.push('\n')) =~= lines(a).drop_last().push(
                    strip_cr(lines(a).last()),
                ));
            }
        },
        Some(k) => {
            let u = a.take(k);
            let w = a.skip(k + 1);
            assert(!u.contains('\n'));
            lemma_lines_ended(w);
            lemma_first_line(u, w);
            lemma_first_line(u, w.push('\n'));
            assert(a =~= u.push('\n') + w);
            assert(a.push('\n') =~= u.push('\n') + w.push('\n'));
            let head = seq![strip_cr(u)];
            if w.len() == 0 || w.last() == '\n' {
                assert(a.last() == '\n');
                assert(lines(a.push('\n')) =~= lines(a).push(Seq::empty()));
            } else {
                assert(w.last() == a.last());
                assert(lines(a) =~= head + lines(w));
                assert(lines(a).last() == lines(w).last());
                assert(lines(a.push('\n')) =~= lines(a).drop_last().push(
                    strip_cr(lines(a).last()),
                ));
            }
        },
    }
}

/// The views of a sequence of character vectors.
pub open spec fn char_views(v: Seq<Vec<char>>) -> Seq<Seq<char>> {
    v.map_values(|c: Vec<char>| c@)
}

/// The lines of a text.
pub fn split_lines(v: &Vec<char>) -> (r: Vec<Vec<char>>)
    ensures
        char_views(r@) == lines(v@),
{
    let mut r: Vec<Vec<char>> = Vec::new();
    let mut from: usize = 0;
    assert(v@.skip(0) =~= v@);
    assert(char_views(r@) + lines(v@.skip(0)) =~= lines(v@));
    while from < v.len()
        invariant
            from <= v@.len(),
            char_views(r@) + lines(v@.skip(from as int)) == lines(v@),
        decreases v@.len() - from,
    {
        let ghost rest = v@.skip(from as int);
        let ghost before = r@;
        let mut to: usize = from;
        while to < v.len() && v[to] != '\n'
            invariant
                from <= to <= v@.len(),
                rest == v@.skip(from as int),
                forall|j: int| 0 <= j < to - from ==> rest[j] != '\n',
            decreases v@.len() - to,
        {
            assert(rest[to - from] == v@[to as int]);
            to = to + 1;
        }
        proof {
            lemma_find(rest, '\n');
            assert(v@.subrange(from as int, to as int) =~= rest.take(to - from));
        }
        if to == v.len() {
            let line = slice(v, from, to);
            proof {
                assert(!rest.contains('\n'));
                assert(line@ =~= rest);
                assert(lines(rest) =~= seq![rest]);
            }
            r.push(line);
            proof {
                assert(char_views(r@) =~= char_views(before).push(rest));
                assert(lines(v@.skip(v@.len() as int)) =~= Seq::<Seq<char>>::empty());
                assert(char_views(r@) + lines(v@.skip(v@.len() as int)) =~= char_views(before)
                    + lines(rest));
            }
            from = to;
        } else {
            proof {
                assert(rest[to - from] == v@[to as int]);
                lemma_find_some(rest, '\n', to - from);
                assert(rest.skip(to - from + 1) =~= v@.skip(to + 1));
            }
            let stop: usize = if to > from && v[to - 1] == '\r' {
                to - 1
            } else {
                to
            };
            let line = slice(v, from, stop);
            proof {
                assert(line@ =~= strip_cr(rest.take(to - from)));
            }
            r.push(line);
            proof {
                assert(char_views(r@) =~= char_views(before).push(line@));
                assert(char_views(r@) + lines(v@.skip(to + 1)) =~= char_views(before) + lines(
                    rest,
                ));
            }
            from = to + 1;
        }
    }
    proof {
        assert(lines(v@.skip(from as int)) =~= Seq::<Seq<char>>::empty());
        assert(char_views(r@) + lines(v@.skip(from as int)) =~= char_views(r@));
    }
    r
}

/// The text up to its first white space, after the white space at its start.
pub open spec fn first_word(s: Seq<char>) -> Seq<char> {
    word_prefix(trim_start(s))
}

/// The longest start of the text without white space.
pub open spec fn word_prefix(s: Seq<char>) -> Seq<char>
    decreases s.len(),
{
    if s.len() == 0 || white_space(s[0]) {
        Seq::empty()
    } else {
        seq![s[0]] + word_prefix(s.skip(1))
    }
}

/// The text up to its first white space, after the white space at its start.
pub fn take_first_word(v: &Vec<char>) -> (r: Vec<char>)
    ensures
        r@ == first_word(v@),
{
    let mut from: usize = 0;
    assert(v@.skip(0) =~= v@);
    while from < v.len() && is_white_space(v[from])
        invariant
            from <= v@.len(),
            trim_start(v@) == trim_start(v@.skip(from as int)),
        decreases v@.len() - from,
    {
        assert(v@.skip(from as int).skip(1) =~= v@.skip(from + 1));
        from = from + 1;
    }
    let mut to: usize = from;
    assert(v@.subrange(from as int, from as int) + word_prefix(v@.skip(from as int))
        =~= word_prefix(v@.skip(from as int)));
    while to < v.len() && !is_white_space(v[to])
        invariant
            from <= to <= v@.len(),
            v@.subrange(from as int, to as int) + word_prefix(v@.skip(to as int)) == word_prefix(
                v@.skip(from as int),
            ),
        decreases v@.len() - to,
    {
        proof {
            assert(v@.skip(to as int).skip(1) =~= v@.skip(to + 1));
            assert(v@.subrange(from as int, to + 1) =~= v@.subrange(from as int, to as int) + seq![
                v@[to as int],
            ]);
            assert(v@.subrange(from as int, to + 1) + word_prefix(v@.skip(to + 1)) =~= v@.subrange(
                from as int,
                to as int,
            ) + word_prefix(v@.skip(to as int)));
        }
        to = to + 1;
    }
    proof {
        assert(word_prefix(v@.skip(to as int)) =~= Seq::<char>::empty());
        assert(v@.subrange(from as int, to as int) + word_prefix(v@.skip(to as int))
            =~= v@.subrange(from as int, to as int));
    }
    slice(v, from, to)
}

/// Whether the character is an ASCII decimal digit.
pub open spec fn is_digit(c: char) -> bool {
    '0' <= c <= '9'
}

/// The number that an ASCII decimal digit stands for.
pub open spec fn digit_value(c: char) -> nat {
    (c as u32 - 48) as nat
}

/// Whether the text consists of ASCII decimal digits alone.
pub open spec fn all_digits(s: Seq<char>) -> bool {
    forall|i: int| 0 <= i < s.len() ==> is_digit(#[trigger] s[i])
}

/// The number that a string of decimal digits denotes.
pub open spec fn decimal_value(s: Seq<char>) -> nat
    decreases s.len(),
{
    if s.len() == 0 {
        0
    } else {
        decimal_value(s.drop_last()) * 10 + digit_value(s.last())
    }
}

/// The number that a text denotes: decimal digits, at least one, perhaps after
/// a plus sign, with a value no greater than `max`.
pub open spec fn parse_nat(s: Seq<char>, max: nat) -> Option<nat> {
    let digits = if s.len() > 0 && s[0] == '+' {
        s.skip(1)
    } else {
        s
    };
    if digits.len() > 0 && all_digits(digits) && decimal_value(digits) <= max {
        Some(decimal_value(digits))
    } else {
        None
    }
}

/// A longer string of digits denotes no smaller number.
proof fn lemma_decimal_prefix(s: Seq<char>, i: int)
    requires
        0 <= i <= s.len(),
    ensures
        decimal_value(s.take(i)) <= decimal_value(s),
    decreases s.len(),
{
    if i < s.len() {
        lemma_decimal_prefix(s.drop_last(), i);
        assert(s.drop_last().take(i) =~= s.take(i));
    } else {
        assert(s.take(i) =~= s);
    }
}

/// The number that a text denotes, as `u64`.
pub fn parse_u64(v: &Vec<char>) -> (r: Option<u64>)
    ensures
        match r {
            Some(n) => parse_nat(v@, u64::MAX as nat) == Some(n as nat),
            None => parse_nat(v@, u64::MAX as nat) is None,
        },
{
    let from: usize = if v.len() > 0 && v[0] == '+' {
        1
    } else {
        0
    };
    let ghost digits = if v@.len() > 0 && v@[0] == '+' {
        v@.skip(1)
    } else {
        v@
    };
    assert(digits =~= v@.skip(from as int));
    if from == v.len() {
        return None;
    }
    let mut n: u64 = 0;
    let mut i: usize = from;
    while i < v.len()
        invariant
            from <= i <= v@.len(),
            digits == v@.skip(from as int),
            n == decimal_value(digits.take(i - from)),
            forall|j: int| 0 <= j < i - from ==> is_digit(#[trigger] digits[j]),
            digits.len() > 0,
            parse_nat(v@, u64::MAX as nat) == (if all_digits(digits) && decimal_value(digits)
                <= u64::MAX {
                Some(decimal_value(digits))
            } else {
                None
            }),
        decreases v@.len() - i,
    {
        let c: char = v[i];
        let ghost k = i - from;
        assert(digits[k] == c);
        if c < '0' || c > '9' {
            return None;
        }
        let d: u64 = (c as u32 - 48) as u64;
        proof {
            assert(digits.take(k + 1).drop_last() =~= digits.take(k));
            assert(decimal_value(digits.take(k + 1)) == n * 10 + d);
            lemma_decimal_prefix(digits, k + 1);
        }
        if n > (u64::MAX - d) / 10 {
            assert(n * 10 + d > u64::MAX);
            return None;
        }
        n = n * 10 + d;
        i = i + 1;
    }
    assert(digits.take(i - from) =~= digits);
    Some(n)
}

/// The number that a text denotes, as `u32`.
pub fn parse_u32(v: &Vec<char>) -> (r: Option<u32>)
    ensures
        match r {
            Some(n) => parse_nat(v@, u32::MAX as nat) == Some(n as nat),
            None => parse_nat(v@, u32::MAX as nat) is None,
        },
{
    match parse_u64(v) {
        Some(n) => if n <= u32::MAX as u64 {
            Some(n as u32)
        } else {
            None
        },
        None => None,
    }
}

/// The number that a text denotes, which a minus sign may make negative, within the
/// bounds of `i64`.
pub open spec fn parse_int(s: Seq<char>) -> Option<int> {
    if s.len() > 0 && s[0] == '-' {
        let digits = s.skip(1);
        if digits.len() > 0 && all_digits(digits) && decimal_value(digits) <= 0x8000_0000_0000_0000 {
            Some(-(decimal_value(digits) as int))
        } else {
            None
        }
    } else {
        match parse_nat(s, i64::MAX as nat) {
            Some(n) => Some(n as int),
            None => None,
        }
    }
}

/// The number that a text denotes, as `i64`.
pub fn parse_i64(v: &Vec<char>) -> (r: Option<i64>)
    ensures
        match r {
            Some(n) => parse_int(v@) == Some(n as int),
            None => parse_int(v@) is None,
        },
{
    if v.len() > 0 && v[0] == '-' {
        let digits = slice(v, 1, v.len());
        assert(digits@ =~= v@.skip(1));
        if digits.len() > 0 && digits[0] == '+' {
            assert(!is_digit(digits@[0]));
            return None;
        }
        match parse_u64(&digits) {
            Some(n) => if n <= 0x7fff_ffff_ffff_ffff {
                Some(-(n as i64))
            } else if n == 0x8000_0000_0000_0000 {
                Some(i64::MIN)
            } else {
                None
            },
            None => None,
        }
    } else {
        match parse_u64(v) {
            Some(n) => if n <= i64::MAX as u64 {
                Some(n as i64)
            } else {
                None
            },
            None => None,
        }
    }
}

/// The character of a decimal digit.
pub open spec fn digit_char(d: nat) -> char {
    (48 + d) as char
}

/// A natural number in decimal notation.
pub open spec fn decimal(n: nat) -> Seq<char>
    decreases n,
{
    if n < 10 {
        seq![digit_char(n)]
    } else {
        decimal(n / 10).push(digit_char(n % 10))
    }
}

/// An integer in decimal notation.
pub open spec fn decimal_int(i: int) -> Seq<char> {
    if i < 0 {
        seq!['-'] + decimal((-i) as nat)
    } else {
        decimal(i as nat)
    }
}

/// The character of a decimal digit.
fn digit_of(d: u64) -> (c: char)
    requires
        d < 10,
    ensures
        c == digit_char(d as nat),
{
    (48 + d as u8) as char
}

/// A number in decimal notation.
pub fn u64_text(n: u64) -> (s: String)
    ensures
        s@ == decimal(n as nat),
    decreases n,
{
    if n < 10 {
        let mut s: String = String::new();
        s.push(digit_of(n));
        assert(s@ =~= seq![digit_char(n as nat)]);
        s
    } else {
        let mut s: String = u64_text(n / 10);
        s.push(digit_of(n % 10));
        s
    }
}

/// A number in decimal notation.
pub fn usize_text(n: usize) -> (s: String)
    ensures
        s@ == decimal(n as nat),
{
    u64_text(n as u64)
}

/// An integer in decimal notation.
pub fn i64_text(n: i64) -> (s: String)
    ensures
        s@ == decimal_int(n as int),
{
    if n >= 0 {
        u64_text(n as u64)
    } else {
        let mut s: String = String::new();
        s.push('-');
        let magnitude: u64 = (-(n + 1)) as u64 + 1;
        let digits: String = u64_text(magnitude);
        s.push_str(digits.as_str());
        assert(s@ =~= seq!['-'] + decimal((-n) as nat));
        s
    }
}

/// Decimal notation consists of digits and denotes the number it was made from.
pub proof fn decimal_round_trip(n: nat)
    ensures
        decimal(n).len() > 0,
        all_digits(decimal(n)),
        decimal_value(decimal(n)) == n,
    decreases n,
{
    if n < 10 {
        reveal_with_fuel(decimal_value, 2);
        assert(decimal(n).drop_last() =~= Seq::<char>::empty());
    } else {
        decimal_round_trip(n / 10);
        assert(decimal(n).drop_last() =~= decimal(n / 10));
    }
}

/// Whether every character is ASCII.
pub open spec fn ascii(s: Seq<char>) -> bool {
    forall|i: int| 0 <= i < s.len() ==> (#[trigger] s[i] as u32) < 128
}

/// An ASCII letter in lower case; any other character as it is.
pub open spec fn ascii_lower(c: char) -> char {
    if 'A' <= c <= 'Z' {
        (c as u32 + 32) as char
    } else {
        c
    }
}

/// An ASCII letter in upper case; any other character as it is.
pub open spec fn ascii_upper(c: char) -> char {
    if 'a' <= c <= 'z' {
        (c as u32 - 32) as char
    } else {
        c
    }
}

/// The text in lower case, as Unicode maps it.
pub uninterp spec fn lowercase(s: Seq<char>) -> Seq<char>;

/// The text in upper case, as Unicode maps it.
pub uninterp spec fn uppercase(s: Seq<char>) -> Seq<char>;

/// `str::to_lowercase`. Of ASCII text it changes the letters A to Z alone.
pub assume_specification[ str::to_lowercase ](s: &str) -> (r: String)
    ensures
        r@ == lowercase(s@),
        ascii(s@) ==> r@ == s@.map_values(|c: char| ascii_lower(c)),
;

/// `str::to_uppercase`. Of ASCII text it changes the letters a to z alone.
pub assume_specification[ str::to_uppercase ](s: &str) -> (r: String)
    ensures
        r@ == uppercase(s@),
        ascii(s@) ==> r@ == s@.map_values(|c: char| ascii_upper(c)),
;

/// `std::str::from_utf8`: the text that the bytes encode, if they are UTF-8.
#[verifier::external_body]
pub(crate) fn from_utf8(bytes: &[u8]) -> (r: Option<String>)
    ensures
        match r {
            Some(s) => vstd::utf8::valid_utf8(bytes@) && s@ == vstd::utf8::decode_utf8(bytes@),
            None => !vstd::utf8::valid_utf8(bytes@),
        },
{
    std::str::from_utf8(bytes).ok().map(|s| s.to_string())
}

/// Whether `a` comes before `b`, or equals it, in the order of their characters.
pub open spec fn at_most(a: Seq<char>, b: Seq<char>) -> bool
    decreases a.len(),
{
    if a.len() == 0 {
        true
    } else if b.len() == 0 {
        false
    } else if a[0] == b[0] {
        at_most(a.skip(1), b.skip(1))
    } else {
        a[0] < b[0]
    }
}

/// Every text stands before itself.
pub proof fn at_most_reflexive(a: Seq<char>)
    ensures
        at_most(a, a),
    decreases a.len(),
{
    if a.len() > 0 {
        at_most_reflexive(a.skip(1));
    }
}

/// Of two texts one stands before the other.
pub proof fn at_most_total(a: Seq<char>, b: Seq<char>)
    ensures
        at_most(a, b) || at_most(b, a),
    decreases a.len(),
{
    if a.len() > 0 && b.len() > 0 {
        at_most_total(a.skip(1), b.skip(1));
    }
}

/// The order of texts is transitive.
pub proof fn at_most_transitive(a: Seq<char>, b: Seq<char>, c: Seq<char>)
    requires
        at_most(a, b),
        at_most(b, c),
    ensures
        at_most(a, c),
    decreases a.len(),
{
    if a.len() > 0 && b.len() > 0 && c.len() > 0 && a[0] == b[0] && b[0] == c[0] {
        at_most_transitive(a.skip(1), b.skip(1), c.skip(1));
    }
}

/// Two texts that stand before each other are the same.
pub proof fn at_most_antisymmetric(a: Seq<char>, b: Seq<char>)
    requires
        at_most(a, b),
        at_most(b, a),
    ensures
        a == b,
    decreases a.len(),
{
    if a.len() > 0 && b.len() > 0 {
        at_most_antisymmetric(a.skip(1), b.skip(1));
        assert(a =~= seq![a[0]] + a.skip(1));
        assert(b =~= seq![b[0]] + b.skip(1));
    } else {
        assert(a =~= b);
    }
}

/// Whether `a` comes before `b`, or equals it, in the order of their characters.
pub fn is_at_most(a: &str, b: &str) -> (r: bool)
    ensures
        r == at_most(a@, b@),
{
    let x = chars_of(a);
    let y = chars_of(b);
    let mut i: usize = 0;
    assert(x@.skip(0) =~= x@);
    assert(y@.skip(0) =~= y@);
    loop
        invariant
            x@ == a@,
            y@ == b@,
            i <= x@.len(),
            i <= y@.len(),
            at_most(a@, b@) == at_most(x@.skip(i as int), y@.skip(i as int)),
        decreases x@.len() - i,
    {
        if i == x.len() {
            return true;
        }
        if i == y.len() {
            return false;
        }
        if x[i] != y[i] {
            return x[i] < y[i];
        }
        proof {
            assert(x@.skip(i as int).skip(1) =~= x@.skip(i + 1));
            assert(y@.skip(i as int).skip(1) =~= y@.skip(i + 1));
        }
        i = i + 1;
    }
}

/// The views of strings.
pub open spec fn texts(v: Seq<String>) -> Seq<Seq<char>> {
    v.map_values(|s: String| s@)
}

/// Copies of strings.
pub fn copy_texts(v: &Vec<String>) -> (r: Vec<String>)
    ensures
        texts(r@) == texts(v@),
{
    let mut r: Vec<String> = Vec::new();
    let mut i: usize = 0;
    while i < v.len()
        invariant
            i <= v@.len(),
            r@.len() == i,
            forall|j: int| 0 <= j < i ==> (#[trigger] r@[j])@ == v@[j]@,
        decreases v@.len() - i,
    {
        r.push(v[i].clone());
        i = i + 1;
    }
    assert(texts(r@) =~= texts(v@));
    r
}

/// Whether one of the strings is `s`.
pub fn has_text(v: &Vec<String>, s: &str) -> (r: bool)
    ensures
        r == texts(v@).contains(s@),
{
    let ghost views = texts(v@);
    let mut i: usize = 0;
    while i < v.len()
        invariant
            i <= v@.len(),
            views == texts(v@),
            forall|j: int| 0 <= j < i ==> #[trigger] views[j] != s@,
        decreases v@.len() - i,
    {
        assert(views[i as int] == v@[i as int]@);
        if same(v[i].as_str(), s) {
            return true;
        }
        i = i + 1;
    }
    false
}

/// Adds a string unless it is there.
pub fn add_once(v: &mut Vec<String>, s: &str)
    requires
        texts(old(v)@).no_duplicates(),
    ensures
        texts(final(v)@).no_duplicates(),
        forall|t: Seq<char>| #[trigger]
            texts(final(v)@).contains(t) == (texts(old(v)@).contains(t) || t == s@),
        texts(final(v)@).to_set() == texts(old(v)@).to_set().insert(s@),
{
    let ghost before = texts(v@);
    if !has_text(v, s) {
        v.push(s.to_string());
        proof {
            let after = texts(v@);
            assert(after =~= before.push(s@));
            assert forall|t: Seq<char>| #[trigger] after.contains(t) == (before.contains(t) || t
                == s@) by {
                if before.contains(t) {
                    let i = choose|i: int| 0 <= i < before.len() && before[i] == t;
                    assert(after[i] == t);
                }
                if t == s@ {
                    assert(after[before.len() as int] == t);
                }
            }
        }
    }
    assert(texts(v@).to_set() =~= before.to_set().insert(s@));
}

/// The text in quotes, with what cannot be shown in it escaped.
pub uninterp spec fn quoted(s: Seq<char>) -> Seq<char>;

/// The `Debug` of `str`: what it writes depends on the text alone.
#[verifier::external_body]
pub(crate) fn quote(s: &str) -> (r: String)
    ensures
        r@ == quoted(s@),
{
    format!("{:?}", s)
}

/// Learns that the names of the two sides of an interface, and the word for neither, are
/// in lower case and differ.
pub(crate) fn plain_directions()
    ensures
        lowercase("ingress"@) == "ingress"@,
        lowercase("egress"@) == "egress"@,
        lowercase("unknown"@) == "unknown"@,
        "ingress"@ != "egress"@,
        "unknown"@ != "ingress"@,
        "unknown"@ != "egress"@,
{
    let a = "ingress".to_lowercase();
    let b = "egress".to_lowercase();
    let c = "unknown".to_lowercase();
    proof {
        reveal_strlit("ingress");
        reveal_strlit("egress");
        reveal_strlit("unknown");
        assert(a@ =~= "ingress"@);
        assert(b@ =~= "egress"@);
        assert(c@ =~= "unknown"@);
        assert("ingress"@.len() != "egress"@.len());
        assert("unknown"@.len() != "egress"@.len());
        assert("unknown"@[0] == 'u' && "ingress"@[0] == 'i');
    }
}

} // verus!
