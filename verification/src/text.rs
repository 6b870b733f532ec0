//! Literal search and replacement on sequences of characters.

use vstd::prelude::*;

verus! {

/// The characters of `s`, in order.
pub fn to_chars(s: &str) -> (chars: Vec<char>)
    ensures
        chars@ == s@,
{
    let mut chars: Vec<char> = Vec::new();
    for c in it: s.chars()
        invariant
            chars@ == s@.take(it.index() as int),
            it.seq() == s@,
    {
        chars.push(c);
    }
    chars
}

/// `needle` stands in `text` at position `at`.
pub open spec fn occurs_at(text: Seq<char>, needle: Seq<char>, at: int) -> bool {
    0 <= at && at + needle.len() <= text.len() && text.subrange(at, at + needle.len()) == needle
}

/// `needle` stands somewhere in `text`.
pub open spec fn occurs_in(text: Seq<char>, needle: Seq<char>) -> bool {
    exists|at: int| occurs_at(text, needle, at)
}

/// `text` with every occurrence of `needle` replaced by `with`, taking the
/// occurrences from the left and never overlapping. An empty needle leaves
/// the text as it is.
pub open spec fn replace_all(text: Seq<char>, needle: Seq<char>, with: Seq<char>) -> Seq<char>
    decreases text.len(),
{
    if needle.len() == 0 || text.len() < needle.len() {
        text
    } else if occurs_at(text, needle, 0) {
        with + replace_all(text.skip(needle.len() as int), needle, with)
    } else {
        seq![text[0]] + replace_all(text.skip(1), needle, with)
    }
}

/// Whether `needle` stands in `text` at position `at`.
pub fn matches_at(text: &Vec<char>, needle: &Vec<char>, at: usize) -> (found: bool)
    ensures
        found == occurs_at(text@, needle@, at as int),
{
    if needle.len() > text.len() || at > text.len() - needle.len() {
        return false;
    }
    let mut k: usize = 0;
    while k < needle.len()
        invariant
            k <= needle.len(),
            at + needle.len() <= text.len(),
            forall|j: int| 0 <= j < k ==> text@[at + j] == needle@[j],
        decreases needle.len() - k,
    {
        if text[at + k] != needle[k] {
            assert(text@.subrange(at as int, at + needle.len())[k as int] != needle@[k as int]);
            return false;
        }
        k += 1;
    }
    assert(text@.subrange(at as int, at + needle.len()) =~= needle@);
    true
}

/// Whether `needle` stands somewhere in `text`.
pub fn contains(text: &Vec<char>, needle: &Vec<char>) -> (found: bool)
    ensures
        found == occurs_in(text@, needle@),
{
    if needle.len() > text.len() {
        return false;
    }
    let last: usize = text.len() - needle.len();
    let mut at: usize = 0;
    loop
        invariant
            last == text.len() - needle.len(),
            needle.len() <= text.len(),
            at <= last,
            forall|j: int| 0 <= j < at ==> !occurs_at(text@, needle@, j),
        decreases last - at,
    {
        if matches_at(text, needle, at) {
            return true;
        }
        if at == last {
            return false;
        }
        at += 1;
    }
}

/// Replaces every occurrence of a non-empty `needle` in `text` by `with`.
pub fn replace(text: &Vec<char>, needle: &Vec<char>, with: &Vec<char>) -> (out: Vec<char>)
    ensures
        out@ == replace_all(text@, needle@, with@),
{
    let mut out: Vec<char> = Vec::new();
    if needle.len() == 0 {
        out.extend_from_slice(text.as_slice());
        return out;
    }
    let mut at: usize = 0;
    proof {
        assert(text@.skip(0) =~= text@);
        assert(out@ + text@ =~= text@);
    }
    while at < text.len()
        invariant
            at <= text.len(),
            needle.len() > 0,
            replace_all(text@, needle@, with@) == out@ + replace_all(
                text@.skip(at as int),
                needle@,
                with@,
            ),
        decreases text.len() - at,
    {
        let ghost rest = text@.skip(at as int);
        if matches_at(text, needle, at) {
            proof {
                lemma_occurs_at_skip(text@, needle@, at as int);
                assert(rest.skip(needle.len() as int) =~= text@.skip(at + needle.len()));
            }
            out.extend_from_slice(with.as_slice());
            at += needle.len();
        } else {
            proof {
                lemma_occurs_at_skip(text@, needle@, at as int);
                assert(rest.skip(1) =~= text@.skip(at + 1));
                assert(rest[0] == text@[at as int]);
                if rest.len() < needle.len() {
                    lemma_replace_all_short(rest, needle@, with@);
                }
            }
            out.push(text[at]);
            at += 1;
        }
    }
    proof {
        assert(text@.skip(at as int) =~= Seq::<char>::empty());
    }
    out
}

/// An occurrence at `at` is an occurrence at the start of what follows `at`.
pub proof fn lemma_occurs_at_skip(text: Seq<char>, needle: Seq<char>, at: int)
    requires
        0 <= at <= text.len(),
    ensures
        occurs_at(text, needle, at) == occurs_at(text.skip(at), needle, 0),
{
    if at + needle.len() <= text.len() {
        assert(text.subrange(at, at + needle.len()) =~= text.skip(at).subrange(
            0,
            needle.len() as int,
        ));
    }
}

/// A text shorter than the needle is spelled out character by character.
proof fn lemma_replace_all_short(text: Seq<char>, needle: Seq<char>, with: Seq<char>)
    requires
        0 < text.len() < needle.len(),
    ensures
        text == seq![text[0]] + replace_all(text.skip(1), needle, with),
{
    assert(text =~= seq![text[0]] + text.skip(1));
}

/// A text that does not hold the needle is left as it is.
pub proof fn lemma_replace_all_without_occurrence(
    text: Seq<char>,
    needle: Seq<char>,
    with: Seq<char>,
)
    requires
        !occurs_in(text, needle),
    ensures
        replace_all(text, needle, with) == text,
    decreases text.len(),
{
    if needle.len() == 0 || text.len() < needle.len() {
    } else {
        assert(!occurs_at(text, needle, 0));
        assert forall|at: int| !occurs_at(text.skip(1), needle, at) by {
            if occurs_at(text.skip(1), needle, at) {
                assert(text.skip(1).subrange(at, at + needle.len()) =~= text.subrange(
                    at + 1,
                    at + 1 + needle.len(),
                ));
                assert(occurs_at(text, needle, at + 1));
            }
        }
        lemma_replace_all_without_occurrence(text.skip(1), needle, with);
        assert(text =~= seq![text[0]] + text.skip(1));
    }
}

/// A character that the needle does not hold parts the text for replacing:
/// what stands in front of it and what stands behind it are replaced each
/// for itself.
pub proof fn lemma_replace_all_around(
    x: Seq<char>,
    c: char,
    y: Seq<char>,
    needle: Seq<char>,
    with: Seq<char>,
)
    requires
        needle.len() > 0,
        forall|i: int| 0 <= i < needle.len() ==> needle[i] != c,
    ensures
        replace_all(x.push(c) + y, needle, with) == replace_all(x, needle, with).push(c)
            + replace_all(y, needle, with),
    decreases x.len(),
{
    let text = x.push(c) + y;
    let n = needle.len() as int;
    if text.len() < n {
        assert(replace_all(x, needle, with).push(c) + replace_all(y, needle, with) =~= text);
    } else if x.len() == 0 {
        if occurs_at(text, needle, 0) {
            assert(text.subrange(0, n)[0] == needle[0]);
            assert(false);
        }
        assert(text.skip(1) =~= y);
        assert(seq![text[0]] + replace_all(y, needle, with) =~= replace_all(
            x,
            needle,
            with,
        ).push(c) + replace_all(y, needle, with));
    } else if occurs_at(text, needle, 0) {
        if n > x.len() {
            assert(text.subrange(0, n)[x.len() as int] == needle[x.len() as int]);
            assert(false);
        }
        assert(x.subrange(0, n) =~= text.subrange(0, n));
        assert(occurs_at(x, needle, 0));
        assert(text.skip(n) =~= x.skip(n).push(c) + y);
        lemma_replace_all_around(x.skip(n), c, y, needle, with);
        assert(with + (replace_all(x.skip(n), needle, with).push(c) + replace_all(
            y,
            needle,
            with,
        )) =~= (with + replace_all(x.skip(n), needle, with)).push(c) + replace_all(
            y,
            needle,
            with,
        ));
    } else {
        assert(text.skip(1) =~= x.skip(1).push(c) + y);
        lemma_replace_all_around(x.skip(1), c, y, needle, with);
        assert(text[0] == x[0]);
        if x.len() >= n {
            if occurs_at(x, needle, 0) {
                assert(x.subrange(0, n) =~= text.subrange(0, n));
                assert(false);
            }
        } else {
            assert(x =~= seq![x[0]] + x.skip(1));
        }
        assert(replace_all(x, needle, with) == seq![x[0]] + replace_all(
            x.skip(1),
            needle,
            with,
        ));
        assert(seq![x[0]] + (replace_all(x.skip(1), needle, with).push(c) + replace_all(
            y,
            needle,
            with,
        )) =~= (seq![x[0]] + replace_all(x.skip(1), needle, with)).push(c) + replace_all(
            y,
            needle,
            with,
        ));
    }
}

/// A character that the needle does not hold parts the text for searching:
/// the needle stands in the text exactly where it stands in front of the
/// character or behind it.
pub proof fn lemma_occurs_around(x: Seq<char>, c: char, y: Seq<char>, needle: Seq<char>)
    requires
        needle.len() > 0,
        forall|i: int| 0 <= i < needle.len() ==> needle[i] != c,
    ensures
        occurs_in(x.push(c) + y, needle) <==> occurs_in(x, needle) || occurs_in(y, needle),
{
    let text = x.push(c) + y;
    let n = needle.len() as int;
    if occurs_in(x, needle) {
        let at = choose|at: int| occurs_at(x, needle, at);
        assert(text.subrange(at, at + n) =~= x.subrange(at, at + n));
        assert(occurs_at(text, needle, at));
    }
    if occurs_in(y, needle) {
        let at = choose|at: int| occurs_at(y, needle, at);
        assert(text.subrange(at + x.len() + 1, at + x.len() + 1 + n) =~= y.subrange(at, at + n));
        assert(occurs_at(text, needle, at + x.len() + 1));
    }
    if occurs_in(text, needle) {
        let at = choose|at: int| occurs_at(text, needle, at);
        if at + n <= x.len() {
            assert(text.subrange(at, at + n) =~= x.subrange(at, at + n));
            assert(occurs_at(x, needle, at));
        } else if at > x.len() {
            assert(text.subrange(at, at + n) =~= y.subrange(at - x.len() - 1, at - x.len() - 1 + n));
            assert(occurs_at(y, needle, at - x.len() - 1));
        } else {
            assert(text.subrange(at, at + n)[x.len() - at] == needle[x.len() - at]);
            assert(false);
        }
    }
}

/// The characters with the Unicode property White_Space.
pub open spec fn is_whitespace(c: char) -> bool {
    let n = c as u32;
    (0x09 <= n <= 0x0D) || n == 0x20 || n == 0x85 || n == 0xA0 || n == 0x1680 || (0x2000 <= n
        <= 0x200A) || n == 0x2028 || n == 0x2029 || n == 0x202F || n == 0x205F || n == 0x3000
}

/// Whether `c` has the Unicode property White_Space.
pub fn char_is_whitespace(c: char) -> (white: bool)
    ensures
        white == is_whitespace(c),
{
    let n: u32 = c as u32;
    (0x09 <= n && n <= 0x0D) || n == 0x20 || n == 0x85 || n == 0xA0 || n == 0x1680 || (0x2000 <= n
        && n <= 0x200A) || n == 0x2028 || n == 0x2029 || n == 0x202F || n == 0x205F || n == 0x3000
}

/// `text` without the whitespace it begins with.
pub open spec fn trim_start(text: Seq<char>) -> Seq<char>
    decreases text.len(),
{
    if text.len() > 0 && is_whitespace(text[0]) {
        trim_start(text.skip(1))
    } else {
        text
    }
}

/// `text` without the whitespace it ends in.
pub open spec fn trim_end(text: Seq<char>) -> Seq<char>
    decreases text.len(),
{
    if text.len() > 0 && is_whitespace(text.last()) {
        trim_end(text.drop_last())
    } else {
        text
    }
}

/// `text` without the whitespace around it.
pub open spec fn trimmed(text: Seq<char>) -> Seq<char> {
    trim_end(trim_start(text))
}

/// Whitespace at the front of a text can be cut in one piece.
proof fn lemma_trim_start_skips(text: Seq<char>, n: int)
    requires
        0 <= n <= text.len(),
        forall|k: int| 0 <= k < n ==> is_whitespace(text[k]),
    ensures
        trim_start(text) == trim_start(text.skip(n)),
    decreases n,
{
    if n > 0 {
        assert(text.skip(1).skip(n - 1) =~= text.skip(n));
        assert forall|k: int| 0 <= k < n - 1 implies is_whitespace(text.skip(1)[k]) by {
            assert(text.skip(1)[k] == text[k + 1]);
        }
        lemma_trim_start_skips(text.skip(1), n - 1);
    } else {
        assert(text.skip(0) =~= text);
    }
}

/// Whitespace at the end of a text can be cut in one piece.
proof fn lemma_trim_end_takes(text: Seq<char>, n: int)
    requires
        0 <= n <= text.len(),
        forall|k: int| n <= k < text.len() ==> is_whitespace(text[k]),
    ensures
        trim_end(text) == trim_end(text.take(n)),
    decreases text.len() - n,
{
    if n < text.len() {
        assert(text.drop_last().take(n) =~= text.take(n));
        lemma_trim_end_takes(text.drop_last(), n);
    } else {
        assert(text.take(n) =~= text);
    }
}

/// The characters of `text` without the whitespace around them.
pub fn trim(text: &Vec<char>) -> (out: Vec<char>)
    ensures
        out@ == trimmed(text@),
{
    let mut from: usize = 0;
    while from < text.len() && char_is_whitespace(text[from])
        invariant
            from <= text.len(),
            forall|k: int| 0 <= k < from ==> is_whitespace(text@[k]),
        decreases text.len() - from,
    {
        from += 1;
    }
    let mut to: usize = text.len();
    while to > from && char_is_whitespace(text[to - 1])
        invariant
            from <= to <= text.len(),
            forall|k: int| to <= k < text.len() ==> is_whitespace(text@[k]),
        decreases to,
    {
        to -= 1;
    }
    let mut out: Vec<char> = Vec::new();
    let mut at: usize = from;
    while at < to
        invariant
            from <= at <= to <= text.len(),
            out@ == text@.subrange(from as int, at as int),
        decreases to - at,
    {
        out.push(text[at]);
        at += 1;
        assert(out@ =~= text@.subrange(from as int, at as int));
    }
    proof {
        let rest = text@.skip(from as int);
        lemma_trim_start_skips(text@, from as int);
        assert(trim_start(rest) == rest);
        assert forall|k: int| to - from <= k < rest.len() implies is_whitespace(rest[k]) by {
            assert(rest[k] == text@[k + from]);
        }
        lemma_trim_end_takes(rest, to - from);
        assert(rest.take(to - from) =~= out@);
        if out@.len() > 0 {
            assert(out@.last() == text@[to - 1]);
        }
        assert(trim_end(out@) == out@);
    }
    out
}

/// The pieces of `text` between its separators, in order. A text without a
/// separator is one piece, and so is the empty text.
pub open spec fn pieces(text: Seq<char>, separator: char) -> Seq<Seq<char>>
    decreases text.len(),
{
    if text.len() == 0 {
        seq![Seq::empty()]
    } else if text.last() == separator {
        pieces(text.drop_last(), separator).push(Seq::empty())
    } else {
        let before = pieces(text.drop_last(), separator);
        before.drop_last().push(before.last().push(text.last()))
    }
}

/// The rows of a list as values.
pub open spec fn rows(list: Seq<Vec<char>>) -> Seq<Seq<char>> {
    list.map_values(|row: Vec<char>| row@)
}

/// Cuts `text` at each separator.
pub fn split(text: &Vec<char>, separator: char) -> (list: Vec<Vec<char>>)
    ensures
        rows(list@) == pieces(text@, separator),
        list@.len() > 0,
{
    let mut list: Vec<Vec<char>> = Vec::new();
    let mut current: Vec<char> = Vec::new();
    let mut i: usize = 0;
    proof {
        assert(text@.take(0) =~= Seq::<char>::empty());
        assert(pieces(text@.take(0), separator) =~= rows(list@).push(current@));
    }
    while i < text.len()
        invariant
            i <= text.len(),
            pieces(text@.take(i as int), separator) == rows(list@).push(current@),
        decreases text.len() - i,
    {
        let c: char = text[i];
        let ghost done = rows(list@);
        proof {
            assert(text@.take(i + 1).drop_last() =~= text@.take(i as int));
            assert(text@.take(i + 1).last() == c);
            assert(done.push(current@).drop_last() =~= done);
        }
        if c == separator {
            list.push(current);
            assert(rows(list@) =~= done.push(current@));
            current = Vec::new();
        } else {
            current.push(c);
        }
        i += 1;
    }
    let ghost done = rows(list@);
    list.push(current);
    proof {
        assert(text@.take(i as int) =~= text@);
        assert(rows(list@) =~= done.push(current@));
    }
    list
}

/// The entries of a comma-separated list: its pieces without the whitespace
/// around them, the empty ones left out.
pub open spec fn list_entries(text: Seq<char>) -> Seq<Seq<char>> {
    entries_among(pieces(text, ','))
}

/// The entries among `pieces`: each piece without the whitespace around it,
/// the empty ones left out.
pub open spec fn entries_among(pieces: Seq<Seq<char>>) -> Seq<Seq<char>>
    decreases pieces.len(),
{
    if pieces.len() == 0 {
        Seq::empty()
    } else if trimmed(pieces.last()).len() == 0 {
        entries_among(pieces.drop_last())
    } else {
        entries_among(pieces.drop_last()).push(trimmed(pieces.last()))
    }
}

/// The position of the first line feed in `text`; its length where it holds
/// none.
pub open spec fn feed_at(text: Seq<char>) -> int
    decreases text.len(),
{
    if text.len() == 0 {
        0
    } else if text[0] == '\n' {
        0
    } else {
        1 + feed_at(text.skip(1))
    }
}

/// Whether the first line of `text` ends in a carriage return and a line
/// feed.
pub open spec fn first_line_has_return(text: Seq<char>) -> bool {
    0 < feed_at(text) < text.len() && text[feed_at(text) - 1] == '\r'
}

/// The first line of a text, without its terminator. A line ends at a line
/// feed; a carriage return directly in front of the line feed belongs to the
/// terminator.
pub open spec fn first_line(text: Seq<char>) -> Seq<char> {
    if first_line_has_return(text) {
        text.take(feed_at(text) - 1)
    } else {
        text.take(feed_at(text))
    }
}

/// The terminator of the first line of a text: a carriage return and a line
/// feed, a line feed, or nothing where the text ends without one.
pub open spec fn first_terminator(text: Seq<char>) -> Seq<char> {
    if first_line_has_return(text) {
        seq!['\r', '\n']
    } else if feed_at(text) < text.len() {
        seq!['\n']
    } else {
        Seq::empty()
    }
}

/// What follows the first line of a text and its terminator.
pub open spec fn after_first_line(text: Seq<char>) -> Seq<char> {
    if feed_at(text) < text.len() {
        text.skip(feed_at(text) + 1)
    } else {
        Seq::empty()
    }
}

/// The lines of a text, in order, each without its terminator. What follows
/// the last line feed is a line too, unless nothing follows it.
pub open spec fn text_lines(text: Seq<char>) -> Seq<Seq<char>>
    decreases text.len(),
    via text_lines_decreases
{
    if text.len() == 0 {
        Seq::empty()
    } else {
        seq![first_line(text)] + text_lines(after_first_line(text))
    }
}

#[via_fn]
proof fn text_lines_decreases(text: Seq<char>) {
    lemma_feed_at(text);
}

/// Where the first line feed stands.
pub proof fn lemma_feed_at(text: Seq<char>)
    ensures
        0 <= feed_at(text) <= text.len(),
        forall|i: int| 0 <= i < feed_at(text) ==> text[i] != '\n',
        feed_at(text) < text.len() ==> text[feed_at(text)] == '\n',
        text.len() > 0 ==> after_first_line(text).len() < text.len(),
    decreases text.len(),
{
    if text.len() > 0 && text[0] != '\n' {
        lemma_feed_at(text.skip(1));
        assert forall|i: int| 0 <= i < feed_at(text) implies text[i] != '\n' by {
            if i > 0 {
                assert(text.skip(1)[i - 1] == text[i]);
            }
        }
        if feed_at(text) < text.len() {
            assert(text.skip(1)[feed_at(text.skip(1))] == text[feed_at(text)]);
        }
    }
}

/// The first line feed stands where no line feed stands in front.
pub proof fn lemma_feed_at_is(text: Seq<char>, n: int)
    requires
        0 <= n <= text.len(),
        forall|i: int| 0 <= i < n ==> text[i] != '\n',
        n < text.len() ==> text[n] == '\n',
    ensures
        feed_at(text) == n,
    decreases text.len(),
{
    if text.len() > 0 && n > 0 {
        assert(text[0] != '\n');
        assert forall|i: int| 0 <= i < n - 1 implies text.skip(1)[i] != '\n' by {
            assert(text.skip(1)[i] == text[i + 1]);
        }
        if n < text.len() {
            assert(text.skip(1)[n - 1] == text[n]);
        }
        lemma_feed_at_is(text.skip(1), n - 1);
    }
}

/// A text is its first line, that line's terminator, and what follows.
pub proof fn lemma_text_parts(text: Seq<char>)
    ensures
        text == first_line(text) + first_terminator(text) + after_first_line(text),
{
    lemma_feed_at(text);
    assert(text =~= first_line(text) + first_terminator(text) + after_first_line(text));
}

/// Finds the first line of what stands in `text` from `start` on: where its
/// content ends, and where its terminator ends.
pub fn first_line_bounds(text: &Vec<char>, start: usize) -> (bounds: (usize, usize))
    requires
        start < text.len(),
    ensures
        start <= bounds.0 <= bounds.1 <= text.len(),
        start < bounds.1,
        first_line(text@.skip(start as int)) == text@.subrange(start as int, bounds.0 as int),
        first_terminator(text@.skip(start as int)) == text@.subrange(
            bounds.0 as int,
            bounds.1 as int,
        ),
        after_first_line(text@.skip(start as int)) == text@.skip(bounds.1 as int),
{
    let ghost rest = text@.skip(start as int);
    let mut at: usize = start;
    while at < text.len() && text[at] != '\n'
        invariant
            start <= at <= text.len(),
            forall|k: int| start <= k < at ==> text@[k] != '\n',
        decreases text.len() - at,
    {
        at += 1;
    }
    proof {
        assert forall|i: int| 0 <= i < at - start implies rest[i] != '\n' by {
            assert(rest[i] == text@[start + i]);
        }
        if at < text.len() {
            assert(rest[at - start] == text@[at as int]);
        }
        lemma_feed_at_is(rest, at - start);
    }
    if at == text.len() {
        proof {
            assert(rest.take(at - start) =~= text@.subrange(start as int, at as int));
            assert(text@.subrange(at as int, at as int) =~= Seq::<char>::empty());
            assert(text@.skip(at as int) =~= Seq::<char>::empty());
        }
        (at, at)
    } else if at > start && text[at - 1] == '\r' {
        proof {
            assert(rest[at - start - 1] == text@[at - 1]);
            assert(rest.take(at - start - 1) =~= text@.subrange(start as int, at - 1));
            assert(text@.subrange(at - 1, at + 1) =~= seq!['\r', '\n']);
            assert(rest.skip(at - start + 1) =~= text@.skip(at + 1));
        }
        (at - 1, at + 1)
    } else {
        proof {
            if at > start {
                assert(rest[at - start - 1] == text@[at - 1]);
            }
            assert(rest.take(at - start) =~= text@.subrange(start as int, at as int));
            assert(text@.subrange(at as int, at + 1) =~= seq!['\n']);
            assert(rest.skip(at - start + 1) =~= text@.skip(at + 1));
        }
        (at, at + 1)
    }
}

/// The items, one per line.
pub open spec fn lines_joined(items: Seq<Seq<char>>) -> Seq<char>
    decreases items.len(),
{
    if items.len() == 0 {
        Seq::empty()
    } else if items.len() == 1 {
        items[0]
    } else {
        lines_joined(items.drop_last()) + "\n"@ + items.last()
    }
}

/// The decimal digits of `n`, the most significant first.
pub open spec fn decimal(n: nat) -> Seq<char>
    decreases n,
{
    if n < 10 {
        seq![digit(n)]
    } else {
        decimal(n / 10).push(digit(n % 10))
    }
}

/// The digit for a number below ten.
pub open spec fn digit(n: nat) -> char {
    if n == 0 {
        '0'
    } else if n == 1 {
        '1'
    } else if n == 2 {
        '2'
    } else if n == 3 {
        '3'
    } else if n == 4 {
        '4'
    } else if n == 5 {
        '5'
    } else if n == 6 {
        '6'
    } else if n == 7 {
        '7'
    } else if n == 8 {
        '8'
    } else {
        '9'
    }
}

/// The digit for a number below ten.
fn digit_of(n: usize) -> (c: char)
    requires
        n < 10,
    ensures
        c == digit(n as nat),
{
    if n == 0 {
        '0'
    } else if n == 1 {
        '1'
    } else if n == 2 {
        '2'
    } else if n == 3 {
        '3'
    } else if n == 4 {
        '4'
    } else if n == 5 {
        '5'
    } else if n == 6 {
        '6'
    } else if n == 7 {
        '7'
    } else if n == 8 {
        '8'
    } else {
        '9'
    }
}

/// Writes `n` in decimal digits.
pub fn to_decimal(n: usize) -> (digits: Vec<char>)
    ensures
        digits@ == decimal(n as nat),
{
    // The digits come out least significant first and are turned round at
    // the end.
    let mut backwards: Vec<char> = Vec::new();
    let mut rest: usize = n;
    while rest >= 10
        invariant
            decimal(n as nat) == decimal(rest as nat) + backwards@.reverse(),
        decreases rest,
    {
        let ghost earlier = backwards@;
        backwards.push(digit_of(rest % 10));
        proof {
            assert(backwards@.reverse() =~= seq![digit((rest % 10) as nat)] + earlier.reverse());
            assert(decimal(rest as nat) == decimal((rest / 10) as nat).push(
                digit((rest % 10) as nat),
            ));
            assert(decimal(rest as nat) + earlier.reverse() =~= decimal((rest / 10) as nat)
                + backwards@.reverse());
        }
        rest = rest / 10;
    }
    let ghost earlier = backwards@;
    backwards.push(digit_of(rest));
    proof {
        assert(backwards@.reverse() =~= seq![digit(rest as nat)] + earlier.reverse());
        assert(decimal(n as nat) =~= backwards@.reverse());
    }
    let mut digits: Vec<char> = Vec::new();
    let mut i: usize = backwards.len();
    while i > 0
        invariant
            i <= backwards.len(),
            digits@ == backwards@.reverse().take(backwards.len() - i),
        decreases i,
    {
        i -= 1;
        digits.push(backwards[i]);
        assert(digits@ =~= backwards@.reverse().take(backwards.len() - i));
    }
    assert(digits@ =~= backwards@.reverse());
    digits
}

} // verus!
