//! Character sequences: whitespace, trimming, searching and line splitting.
//!
//! Every position in this module counts characters, not bytes.

use vstd::prelude::*;

verus! {

/// The characters that carry the Unicode property `White_Space`.
pub open spec fn is_space(c: char) -> bool {
    let code = c as u32;
    ||| 0x09 <= code <= 0x0D
    ||| code == 0x20
    ||| code == 0x85
    ||| code == 0xA0
    ||| code == 0x1680
    ||| 0x2000 <= code <= 0x200A
    ||| code == 0x2028
    ||| code == 0x2029
    ||| code == 0x202F
    ||| code == 0x205F
    ||| code == 0x3000
}

/// `s` without its leading whitespace.
pub open spec fn trim_start(s: Seq<char>) -> Seq<char>
    decreases s.len(),
{
    if s.len() > 0 && is_space(s[0]) {
        trim_start(s.drop_first())
    } else {
        s
    }
}

/// `s` without its trailing whitespace.
pub open spec fn trim_end(s: Seq<char>) -> Seq<char>
    decreases s.len(),
{
    if s.len() > 0 && is_space(s.last()) {
        trim_end(s.drop_last())
    } else {
        s
    }
}

/// `s` without the whitespace that surrounds it.
pub open spec fn trimmed(s: Seq<char>) -> Seq<char> {
    trim_end(trim_start(s))
}

/// The position of the first `c` in `s`, or the length of `s` where it holds none.
pub open spec fn index_of(s: Seq<char>, c: char) -> nat
    decreases s.len(),
{
    if s.len() == 0 || s[0] == c {
        0
    } else {
        1 + index_of(s.drop_first(), c)
    }
}

/// `needle` stands in `hay` at position `at`.
pub open spec fn occurs_at(hay: Seq<char>, needle: Seq<char>, at: int) -> bool {
    &&& 0 <= at
    &&& at + needle.len() <= hay.len()
    &&& hay.subrange(at, at + needle.len()) == needle
}

/// The leftmost position at which `needle` stands in `hay`, if there is one.
#[verifier::opaque]
pub open spec fn first_occurrence(hay: Seq<char>, needle: Seq<char>) -> Option<int> {
    if exists|at: int| occurs_at(hay, needle, at) {
        Some(
            choose|at: int|
                occurs_at(hay, needle, at) && forall|before: int|
                    before < at ==> !occurs_at(hay, needle, before),
        )
    } else {
        None
    }
}

/// `s` without `prefix` where it begins with it; else `s` as it is.
pub open spec fn without_prefix(s: Seq<char>, prefix: Seq<char>) -> Seq<char> {
    if prefix.is_prefix_of(s) {
        s.skip(prefix.len() as int)
    } else {
        s
    }
}

/// What stands in `s` before the first `c`: all of `s` where it holds none.
pub open spec fn before(s: Seq<char>, c: char) -> Seq<char> {
    s.take(index_of(s, c) as int)
}

/// A line without the carriage return that may end it.
pub open spec fn strip_cr(line: Seq<char>) -> Seq<char> {
    if line.len() > 0 && line.last() == '\r' {
        line.drop_last()
    } else {
        line
    }
}

/// The lines of `s`. A line ends at a line feed, or at a carriage return
/// directly followed by one; the terminator is no part of the line. What
/// follows the last line feed is a line too, unless it is empty.
pub open spec fn lines(s: Seq<char>) -> Seq<Seq<char>>
    decreases s.len(),
{
    if s.len() == 0 {
        Seq::empty()
    } else {
        let end = index_of(s, '\n') as int;
        if end >= s.len() {
            seq![s]
        } else {
            seq![strip_cr(s.take(end))] + lines(s.skip(end + 1))
        }
    }
}

/// Only the empty text has no line.
pub proof fn lemma_no_line(s: Seq<char>)
    ensures
        lines(s).len() == 0 <==> s.len() == 0,
{
}

/// `index_of` is within `s`, no earlier position holds `c`, and where it is
/// inside `s` it holds `c`.
pub proof fn lemma_index_of(s: Seq<char>, c: char)
    ensures
        index_of(s, c) <= s.len(),
        forall|i: int| 0 <= i < index_of(s, c) ==> s[i] != c,
        index_of(s, c) < s.len() ==> s[index_of(s, c) as int] == c,
    decreases s.len(),
{
    if s.len() == 0 || s[0] == c {
    } else {
        let rest = s.drop_first();
        lemma_index_of(rest, c);
        assert forall|i: int| 0 <= i < index_of(s, c) implies s[i] != c by {
            if i > 0 {
                assert(s[i] == rest[i - 1]);
            }
        }
    }
}

/// A position that holds `c`, or the end of `s`, before which nothing holds
/// `c`, is `index_of(s, c)`.
pub proof fn lemma_index_of_is(s: Seq<char>, c: char, at: int)
    requires
        0 <= at <= s.len(),
        forall|i: int| 0 <= i < at ==> s[i] != c,
        at < s.len() ==> s[at] == c,
    ensures
        index_of(s, c) == at,
{
    lemma_index_of(s, c);
}

/// The first occurrence is an occurrence with none before it; there is none
/// only where `needle` stands nowhere in `hay`.
pub proof fn lemma_first_occurrence(hay: Seq<char>, needle: Seq<char>)
    ensures
        match first_occurrence(hay, needle) {
            Some(at) => occurs_at(hay, needle, at) && forall|before: int|
                before < at ==> !occurs_at(hay, needle, before),
            None => forall|at: int| !occurs_at(hay, needle, at),
        },
{
    reveal(first_occurrence);
    if exists|at: int| occurs_at(hay, needle, at) {
        let some = choose|at: int| occurs_at(hay, needle, at);
        lemma_leftmost_exists(hay, needle, some);
    }
}

/// Where `needle` stands at `at`, it has a leftmost occurrence.
proof fn lemma_leftmost_exists(hay: Seq<char>, needle: Seq<char>, at: int)
    requires
        occurs_at(hay, needle, at),
    ensures
        exists|first: int|
            occurs_at(hay, needle, first) && forall|before: int|
                before < first ==> !occurs_at(hay, needle, before),
    decreases at,
{
    if exists|before: int| before < at && occurs_at(hay, needle, before) {
        let before = choose|before: int| before < at && occurs_at(hay, needle, before);
        lemma_leftmost_exists(hay, needle, before);
    }
}

/// A leftmost occurrence is the first occurrence.
pub proof fn lemma_first_occurrence_is(hay: Seq<char>, needle: Seq<char>, at: int)
    requires
        occurs_at(hay, needle, at),
        forall|before: int| before < at ==> !occurs_at(hay, needle, before),
    ensures
        first_occurrence(hay, needle) == Some(at),
{
    reveal(first_occurrence);
}

/// Leading whitespace can be dropped before trimming the start.
proof fn lemma_trim_start_skips(s: Seq<char>, n: int)
    requires
        0 <= n <= s.len(),
        forall|i: int| 0 <= i < n ==> is_space(s[i]),
    ensures
        trim_start(s) == trim_start(s.skip(n)),
    decreases n,
{
    if n == 0 {
        assert(s.skip(0) =~= s);
    } else {
        lemma_trim_start_skips(s.drop_first(), n - 1);
        assert(s.drop_first().skip(n - 1) =~= s.skip(n));
    }
}

/// Trailing whitespace can be dropped before trimming the end.
proof fn lemma_trim_end_takes(s: Seq<char>, n: int)
    requires
        0 <= n <= s.len(),
        forall|i: int| n <= i < s.len() ==> is_space(s[i]),
    ensures
        trim_end(s) == trim_end(s.take(n)),
    decreases s.len() - n,
{
    if n == s.len() {
        assert(s.take(n) =~= s);
    } else {
        lemma_trim_end_takes(s.drop_last(), n);
        assert(s.drop_last().take(n) =~= s.take(n));
    }
}

/// Tells whether `c` is a whitespace character.
pub fn is_space_char(c: char) -> (r: bool)
    ensures
        r == is_space(c),
{
    let code: u32 = c as u32;
    (0x09 <= code && code <= 0x0D) || code == 0x20 || code == 0x85 || code == 0xA0 || code
        == 0x1680 || (0x2000 <= code && code <= 0x200A) || code == 0x2028 || code == 0x2029
        || code == 0x202F || code == 0x205F || code == 0x3000
}

/// The characters of `s`, in order.
pub fn chars_of(s: &str) -> (r: Vec<char>)
    ensures
        r@ == s@,
{
    let mut out: Vec<char> = Vec::new();
    for c in it: s.chars()
        invariant
            out@ == it.seq().take(it.index()),
            it.seq() == s@,
    {
        out.push(c);
    }
    out
}

/// The bounds of what trimming leaves of `chars`.
fn trim_bounds(chars: &[char]) -> (r: (usize, usize))
    ensures
        r.0 <= r.1 <= chars@.len(),
        chars@.subrange(r.0 as int, r.1 as int) == trimmed(chars@),
{
    let len: usize = chars.len();
    let mut from: usize = 0;
    while from < len && is_space_char(chars[from])
        invariant
            len == chars@.len(),
            from <= len,
            forall|i: int| 0 <= i < from ==> is_space(chars@[i]),
        decreases len - from,
    {
        from += 1;
    }
    proof {
        lemma_trim_start_skips(chars@, from as int);
    }
    let ghost rest = chars@.skip(from as int);
    let mut to: usize = len;
    while to > from && is_space_char(chars[to - 1])
        invariant
            len == chars@.len(),
            from <= to <= len,
            rest == chars@.skip(from as int),
            forall|i: int| to - from <= i < rest.len() ==> is_space(rest[i]),
        decreases to,
    {
        to -= 1;
    }
    proof {
        lemma_trim_end_takes(rest, to - from);
    }
    (from, to)
}

/// `s` without the whitespace that surrounds it.
pub fn trim(s: &str) -> (r: String)
    ensures
        r@ == trimmed(s@),
{
    let chars = chars_of(s);
    let (from, to): (usize, usize) = trim_bounds(chars.as_slice());
    s.substring_char(from, to).to_owned()
}

/// Tells whether `needle` stands in `hay` at position `at`.
fn matches_at(hay: &[char], needle: &[char], at: usize) -> (r: bool)
    requires
        at + needle@.len() <= hay@.len(),
    ensures
        r == occurs_at(hay@, needle@, at as int),
{
    let len: usize = needle.len();
    let hay_len: usize = hay.len();
    let mut i: usize = 0;
    while i < len
        invariant
            len == needle@.len(),
            hay_len == hay@.len(),
            at + len <= hay_len,
            i <= len,
            forall|j: int| 0 <= j < i ==> hay@[at + j] == needle@[j],
        decreases len - i,
    {
        if hay[at + i] != needle[i] {
            return false;
        }
        i += 1;
    }
    assert(hay@.subrange(at as int, at + len) =~= needle@);
    true
}

/// The leftmost position at which `needle` stands in `hay`.
pub fn find(hay: &[char], needle: &[char]) -> (r: Option<usize>)
    ensures
        match r {
            Some(at) => first_occurrence(hay@, needle@) == Some(at as int),
            None => first_occurrence(hay@, needle@) is None,
        },
{
    let hay_len: usize = hay.len();
    let needle_len: usize = needle.len();
    if needle_len > hay_len {
        proof {
            lemma_first_occurrence(hay@, needle@);
        }
        return None;
    }
    let last: usize = hay_len - needle_len;
    let mut at: usize = 0;
    loop
        invariant
            hay_len == hay@.len(),
            needle_len == needle@.len(),
            last == hay_len - needle_len,
            at <= last,
            forall|before: int| before < at ==> !occurs_at(hay@, needle@, before),
        decreases last - at,
    {
        if matches_at(hay, needle, at) {
            proof {
                lemma_first_occurrence_is(hay@, needle@, at as int);
            }
            return Some(at);
        }
        if at == last {
            proof {
                lemma_first_occurrence(hay@, needle@);
            }
            return None;
        }
        at += 1;
    }
}

/// `s` without `prefix` where it begins with it; else `s` as it is.
pub fn remove_prefix(s: &str, prefix: &str) -> (r: String)
    ensures
        r@ == without_prefix(s@, prefix@),
{
    let chars = chars_of(s);
    let lead = chars_of(prefix);
    if lead.len() <= chars.len() && matches_at(chars.as_slice(), lead.as_slice(), 0) {
        s.substring_char(lead.len(), chars.len()).to_owned()
    } else {
        s.to_owned()
    }
}

/// What stands in `s` before the first `c`: all of `s` where it holds none.
pub fn take_before(s: &str, c: char) -> (r: &str)
    ensures
        r@ == before(s@, c),
{
    let chars = chars_of(s);
    let end: usize = position_from(chars.as_slice(), 0, c);
    assert(chars@.skip(0) =~= chars@);
    s.substring_char(0, end)
}

/// The position of the first `c` in `chars` at or after `from`, or the length
/// of `chars` where none follows.
fn position_from(chars: &[char], from: usize, c: char) -> (r: usize)
    requires
        from <= chars@.len(),
    ensures
        from <= r <= chars@.len(),
        r == from + index_of(chars@.skip(from as int), c),
{
    let len: usize = chars.len();
    let mut at: usize = from;
    while at < len && chars[at] != c
        invariant
            len == chars@.len(),
            from <= at <= len,
            forall|i: int| from <= i < at ==> chars@[i] != c,
        decreases len - at,
    {
        at += 1;
    }
    proof {
        lemma_index_of_is(chars@.skip(from as int), c, at - from);
    }
    at
}

/// The lines of `text`, each as a string of its own. Every line is cut out
/// by a scan from the start of the text.
pub fn split_lines(text: &str) -> (r: Vec<String>)
    ensures
        r@.len() == lines(text@).len(),
        forall|i: int| 0 <= i < r@.len() ==> #[trigger] r@[i]@ == lines(text@)[i],
{
    let chars = chars_of(text);
    let len: usize = chars.len();
    let mut out: Vec<String> = Vec::new();
    let mut start: usize = 0;
    assert(text@.skip(0) =~= text@);
    while start < len
        invariant
            chars@ == text@,
            len == chars@.len(),
            start <= len,
            lines(text@).len() == out@.len() + lines(text@.skip(start as int)).len(),
            forall|i: int| 0 <= i < out@.len() ==> #[trigger] out@[i]@ == lines(text@)[i],
            forall|i: int|
                0 <= i < lines(text@.skip(start as int)).len() ==> lines(text@)[out@.len() + i]
                    == #[trigger] lines(text@.skip(start as int))[i],
        decreases len - start,
    {
        let ghost rest = text@.skip(start as int);
        let end: usize = position_from(chars.as_slice(), start, '\n');
        let mut stop: usize = end;
        if end < len && end > start && chars[end - 1] == '\r' {
            stop = end - 1;
        }
        let line = text.substring_char(start, stop).to_owned();
        let next: usize = if end < len {
            end + 1
        } else {
            len
        };
        proof {
            let ghost tail = text@.skip(next as int);
            if end < len {
                assert(rest.skip(end - start + 1) =~= tail);
                assert(strip_cr(rest.take(end - start)) =~= line@);
            }
            assert(lines(rest)[0] == line@);
            assert forall|i: int| 0 <= i < lines(tail).len() implies lines(text@)[out@.len() + 1
                + i] == #[trigger] lines(tail)[i] by {
                assert(lines(rest)[i + 1] == lines(tail)[i]);
            }
        }
        out.push(line);
        start = next;
    }
    out
}

} // verus!
