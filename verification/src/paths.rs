//! What the line-by-line path makes of a file, stated line by line, and the
//! cases in which the in-memory path makes the same of it.

use crate::line_reader::{joined, lemma_joined_concat, lines_of, LineView};
use crate::replace::{
    candidate_for, candidates_of, chunked, line_index, line_numbers, replacement, rewritten,
    unchanged_since_search,
};
use crate::search::{hit, hits, scan, CandidateView, SearchView};
use crate::text::{
    after_first_line, feed_at, first_line, first_line_has_return, first_terminator,
    lemma_feed_at, lemma_occurs_around, lemma_replace_all_around, occurs_at, occurs_in,
    replace_all,
};
use vstd::prelude::*;
use vstd::utf8::*;

verus! {

/// The candidate that line `number` gives: the line as a search result with
/// its replacement, where the line is text in which the pattern can be
/// replaced.
pub open spec fn line_candidate(
    path: Seq<char>,
    number: usize,
    line: LineView,
    search: SearchView,
    replace: Seq<char>,
) -> Option<CandidateView> {
    match hit(path, number, line, search) {
        Some(found) => match replacement(found.line, search, replace) {
            Some(text) => Some(
                CandidateView { search_result: found, replacement: text, replace_result: None },
            ),
            None => None,
        },
        None => None,
    }
}

/// The candidate that the line with the number `m` gives.
pub open spec fn candidate_of_line(
    path: Seq<char>,
    lines: Seq<LineView>,
    search: SearchView,
    replace: Seq<char>,
    m: usize,
) -> Option<CandidateView> {
    line_candidate(path, m, lines[m - 1], search, replace)
}

/// The candidates that the first `n` of `lines` give, in order.
pub open spec fn line_candidates(
    path: Seq<char>,
    lines: Seq<LineView>,
    search: SearchView,
    replace: Seq<char>,
    n: int,
) -> Seq<CandidateView>
    decreases n,
{
    if n <= 0 || n > lines.len() || n > usize::MAX {
        Seq::empty()
    } else {
        match line_candidate(path, n as usize, lines[n - 1], search, replace) {
            Some(candidate) => line_candidates(path, lines, search, replace, n - 1).push(
                candidate,
            ),
            None => line_candidates(path, lines, search, replace, n - 1),
        }
    }
}

/// The candidates made of the results of the first `n` lines are the
/// candidates that those lines give.
pub proof fn lemma_candidates_of_hits(
    path: Seq<char>,
    lines: Seq<LineView>,
    search: SearchView,
    replace: Seq<char>,
    n: int,
)
    ensures
        candidates_of(hits(path, lines, search, n), search, replace) == line_candidates(
            path,
            lines,
            search,
            replace,
            n,
        ),
    decreases n,
{
    if n <= 0 || n > lines.len() || n > usize::MAX {
    } else {
        lemma_candidates_of_hits(path, lines, search, replace, n - 1);
        let before = hits(path, lines, search, n - 1);
        match hit(path, n as usize, lines[n - 1], search) {
            Some(found) => {
                assert(before.push(found).drop_last() =~= before);
                assert(before.push(found).last() == found);
            },
            None => {},
        }
    }
}

/// The candidates of the first `n` lines are found by their line numbers:
/// a number leads to a candidate exactly where its line gives one, and then
/// to that one.
pub proof fn lemma_candidates_are_indexed(
    path: Seq<char>,
    lines: Seq<LineView>,
    search: SearchView,
    replace: Seq<char>,
    n: int,
)
    requires
        0 <= n <= lines.len(),
        n <= usize::MAX,
    ensures
        line_candidates(path, lines, search, replace, n).len() <= n,
        forall|m: usize|
            #[trigger] candidate_for(line_candidates(path, lines, search, replace, n), m) is Some
                <==> (1 <= m <= n && candidate_of_line(path, lines, search, replace, m) is Some),
        forall|m: usize|
            1 <= m <= n && candidate_of_line(path, lines, search, replace, m) is Some ==> {
                let j = (#[trigger] candidate_for(
                    line_candidates(path, lines, search, replace, n),
                    m,
                )).unwrap();
                0 <= j < line_candidates(path, lines, search, replace, n).len() && Some(
                    line_candidates(path, lines, search, replace, n)[j],
                ) == candidate_of_line(path, lines, search, replace, m)
            },
    decreases n,
{
    if n > 0 {
        lemma_candidates_are_indexed(path, lines, search, replace, n - 1);
        let before = line_candidates(path, lines, search, replace, n - 1);
        let now = line_candidates(path, lines, search, replace, n);
        match line_candidate(path, n as usize, lines[n - 1], search, replace) {
            Some(candidate) => {
                assert(line_numbers(now).drop_last() =~= line_numbers(before));
                assert(line_numbers(now).last() == n as usize);
                assert(line_index(line_numbers(now)) == line_index(line_numbers(before)).insert(
                    n as usize,
                    (now.len() - 1) as usize,
                ));
                assert forall|m: usize|
                    1 <= m <= n && candidate_of_line(path, lines, search, replace, m)
                        is Some implies {
                    let j = (#[trigger] candidate_for(now, m)).unwrap();
                    0 <= j < now.len() && Some(now[j]) == candidate_of_line(
                        path,
                        lines,
                        search,
                        replace,
                        m,
                    )
                } by {
                    if m < n {
                        assert(candidate_for(before, m) is Some);
                        let j = candidate_for(before, m).unwrap();
                        assert(now[j] == before[j]);
                    }
                }
            },
            None => {},
        }
    }
}

/// What the line-by-line path writes for a line: a line that is text in
/// which the pattern can be replaced is written with the pattern replaced;
/// any other line is written as it was read.
pub open spec fn streamed_line(line: LineView, search: SearchView, replace: Seq<char>) -> LineView {
    if valid_utf8(line.content) {
        match replacement(decode_utf8(line.content), search, replace) {
            Some(text) => LineView { content: encode_utf8(text), ending: line.ending },
            None => line,
        }
    } else {
        line
    }
}

/// What the line-by-line path writes for `lines`.
pub open spec fn streamed(lines: Seq<LineView>, search: SearchView, replace: Seq<char>) -> Seq<
    LineView,
> {
    Seq::new(lines.len(), |i: int| streamed_line(lines[i], search, replace))
}

/// The line-by-line path, line by line: the rewrite pass over the candidates
/// of the scanning pass writes each line of text with the pattern replaced
/// in it, and every other line as it was read. It finds no candidate exactly
/// where this leaves every line as it was.
pub proof fn lemma_streaming_line_by_line(
    path: Seq<char>,
    content: Seq<u8>,
    search: SearchView,
    replace: Seq<char>,
)
    requires
        lines_of(content).len() <= usize::MAX,
    ensures
        rewritten(
            lines_of(content),
            candidates_of(scan(path, content, search), search, replace),
        ) == streamed(lines_of(content), search, replace),
        candidates_of(scan(path, content, search), search, replace).len() == 0 <==> forall|i: int|
            0 <= i < lines_of(content).len() ==> !(valid_utf8(
                (#[trigger] lines_of(content)[i]).content,
            ) && replacement(decode_utf8(lines_of(content)[i].content), search, replace) is Some),
{
    let lines = lines_of(content);
    let n = lines.len() as int;
    let found = candidates_of(scan(path, content, search), search, replace);
    if search.is_empty() {
        assert(found =~= Seq::<CandidateView>::empty());
        assert(line_numbers(found) =~= Seq::<usize>::empty());
        assert(rewritten(lines, found) =~= streamed(lines, search, replace));
    } else {
        lemma_candidates_of_hits(path, lines, search, replace, n);
        lemma_candidates_are_indexed(path, lines, search, replace, n);
        assert forall|i: int| 0 <= i < n implies rewritten(lines, found)[i] == streamed(
            lines,
            search,
            replace,
        )[i] by {
            let m = (i + 1) as usize;
            if line_candidate(path, m, lines[m - 1], search, replace) is Some {
                let j = candidate_for(found, m).unwrap();
                decode_utf8_encode_utf8(lines[i].content);
                assert(unchanged_since_search(lines[i], found[j]));
            } else {
                assert(candidate_for(found, m) is None);
            }
        }
        assert(rewritten(lines, found) =~= streamed(lines, search, replace));
        if found.len() == 0 {
            assert forall|i: int| 0 <= i < n implies !(valid_utf8((#[trigger] lines[i]).content)
                && replacement(decode_utf8(lines[i].content), search, replace) is Some) by {
                let m = (i + 1) as usize;
                if line_candidate(path, m, lines[m - 1], search, replace) is Some {
                    assert(candidate_for(found, m) is Some);
                }
            }
        } else {
            lemma_line_index_holds_last(line_numbers(found));
            let m = found.last().search_result.line_number;
            assert(line_numbers(found).last() == m);
            assert(candidate_for(found, m) is Some);
            assert(line_candidate(path, m, lines[m - 1], search, replace) is Some);
        }
    }
}

/// The line number of the last candidate is in the index.
proof fn lemma_line_index_holds_last(numbers: Seq<usize>)
    requires
        numbers.len() > 0,
    ensures
        line_index(numbers).contains_key(numbers.last()),
{
}

/// The encoding of two texts one after the other is their encodings one
/// after the other.
pub proof fn lemma_encode_concat(a: Seq<char>, b: Seq<char>)
    ensures
        encode_utf8(a + b) == encode_utf8(a) + encode_utf8(b),
    decreases a.len(),
{
    if a.len() == 0 {
        assert(a + b =~= b);
        assert(encode_utf8(a) + encode_utf8(b) =~= encode_utf8(b));
    } else {
        lemma_encode_concat(a.drop_first(), b);
        assert((a + b).drop_first() =~= a.drop_first() + b);
        assert((a + b)[0] == a[0]);
        assert(encode_scalar(a[0] as u32) + (encode_utf8(a.drop_first()) + encode_utf8(b))
            =~= (encode_scalar(a[0] as u32) + encode_utf8(a.drop_first())) + encode_utf8(b));
    }
}

/// A character below 128 is encoded as itself; every byte of any other
/// character is 128 or more.
proof fn lemma_scalar_bytes(c: char)
    ensures
        encode_scalar(c as u32).len() > 0,
        (c as u32) < 0x80 ==> encode_scalar(c as u32) == seq![(c as u32) as u8],
        (c as u32) >= 0x80 ==> forall|k: int|
            0 <= k < encode_scalar(c as u32).len() ==> #[trigger] encode_scalar(c as u32)[k]
                >= 0x80u8,
{
    let s = c as u32;
    char_is_scalar(c);
    if has_width_1_encoding(s) {
        assert((s & 0x7F) as u8 == s as u8) by (bit_vector)
            requires
                s <= 0x7F,
        ;
    } else {
        assert((0xC0u8 | ((s >> 6) & 0x1F) as u8) >= 0x80u8) by (bit_vector);
        assert((0xE0u8 | ((s >> 12) & 0x0F) as u8) >= 0x80u8) by (bit_vector);
        assert((0xF0u8 | ((s >> 18) & 0x7) as u8) >= 0x80u8) by (bit_vector);
        assert((0x80u8 | (s & 0x3F) as u8) >= 0x80u8) by (bit_vector);
        assert((0x80u8 | ((s >> 6) & 0x3F) as u8) >= 0x80u8) by (bit_vector);
        assert((0x80u8 | ((s >> 12) & 0x3F) as u8) >= 0x80u8) by (bit_vector);
    }
}

/// The encoding of one character.
proof fn lemma_encode_one(c: char)
    ensures
        encode_utf8(seq![c]) == encode_scalar(c as u32),
{
    assert(seq![c].drop_first() =~= Seq::<char>::empty());
    assert(encode_scalar(c as u32) + encode_utf8(Seq::<char>::empty()) =~= encode_scalar(
        c as u32,
    ));
}

/// A byte below 128 stands in an encoding only where its character stands
/// in the text.
proof fn lemma_encoding_without(a: Seq<char>, c: char)
    requires
        (c as u32) < 0x80,
        forall|i: int| 0 <= i < a.len() ==> a[i] != c,
    ensures
        forall|k: int|
            0 <= k < encode_utf8(a).len() ==> #[trigger] encode_utf8(a)[k] != (c as u32) as u8,
    decreases a.len(),
{
    if a.len() > 0 {
        let first = a.first();
        let head = encode_scalar(first as u32);
        let rest = encode_utf8(a.drop_first());
        lemma_scalar_bytes(first);
        assert forall|i: int| 0 <= i < a.drop_first().len() implies a.drop_first()[i] != c by {
            assert(a.drop_first()[i] == a[i + 1]);
        }
        lemma_encoding_without(a.drop_first(), c);
        assert(first != c);
        if (first as u32) < 0x80 && (first as u32) as u8 == (c as u32) as u8 {
            assert(first as u32 == c as u32);
            char_u32_cast(first, first as u32);
            char_u32_cast(c, c as u32);
            assert(false);
        }
        assert forall|k: int| 0 <= k < encode_utf8(a).len() implies #[trigger] encode_utf8(a)[k]
            != (c as u32) as u8 by {
            assert(encode_utf8(a) == head + rest);
            if k < head.len() {
                assert(encode_utf8(a)[k] == head[k]);
            } else {
                assert(encode_utf8(a)[k] == rest[k - head.len()]);
            }
        }
    }
}

/// An encoding ends in a byte below 128 exactly where the text ends in its
/// character.
proof fn lemma_encoding_ends_in(a: Seq<char>, c: char)
    requires
        (c as u32) < 0x80,
    ensures
        a.len() > 0 <==> encode_utf8(a).len() > 0,
        a.len() > 0 ==> (encode_utf8(a).last() == (c as u32) as u8 <==> a.last() == c),
        a.len() > 0 && a.last() == c ==> encode_utf8(a).drop_last() == encode_utf8(a.drop_last()),
{
    if a.len() > 0 {
        let front = a.drop_last();
        assert(a =~= front + seq![a.last()]);
        lemma_encode_concat(front, seq![a.last()]);
        lemma_encode_one(a.last());
        lemma_scalar_bytes(a.last());
        let tail = encode_scalar(a.last() as u32);
        assert(encode_utf8(a).last() == tail.last());
        if (a.last() as u32) < 0x80 {
            if (a.last() as u32) as u8 == (c as u32) as u8 {
                assert(a.last() as u32 == c as u32);
                char_u32_cast(a.last(), a.last() as u32);
                char_u32_cast(c, c as u32);
            }
        }
        if a.last() == c {
            assert(encode_utf8(a).drop_last() =~= encode_utf8(front));
        }
    }
}

/// The line as which the first line of a text is read from its encoding.
pub open spec fn first_line_read(text: Seq<char>) -> LineView {
    LineView {
        content: encode_utf8(first_line(text)),
        ending: if first_line_has_return(text) {
            crate::line_reader::LineEnding::CrLf
        } else if feed_at(text) < text.len() {
            crate::line_reader::LineEnding::Lf
        } else {
            crate::line_reader::LineEnding::Unterminated
        },
    }
}

/// The lines of an encoded text are the first line of the text, encoded,
/// and the lines of what follows it.
proof fn lemma_lines_of_encoding(text: Seq<char>)
    requires
        text.len() > 0,
    ensures
        lines_of(encode_utf8(text)) == seq![first_line_read(text)] + lines_of(
            encode_utf8(after_first_line(text)),
        ),
        after_first_line(text).len() < text.len(),
{
    lemma_feed_at(text);
    let k = feed_at(text);
    let body = text.take(k);
    let head = encode_utf8(body);
    assert forall|i: int| 0 <= i < body.len() implies body[i] != '\n' by {
        assert(body[i] == text[i]);
    }
    lemma_encoding_without(body, '\n');
    lemma_encoding_ends_in(body, '\r');
    if k < text.len() {
        let tail = text.skip(k + 1);
        let feed = seq!['\n'];
        assert(text =~= (body + feed) + tail);
        lemma_encode_concat(body + feed, tail);
        lemma_encode_concat(body, feed);
        lemma_encode_one('\n');
        lemma_scalar_bytes('\n');
        assert(encode_utf8(feed) == seq![10u8]);
        assert(head + seq![10u8] =~= head.push(10u8));
        assert(encode_utf8(text) == head.push(10u8) + encode_utf8(tail));
        crate::line_reader::lemma_lines_of_terminated(head, encode_utf8(tail));
        crate::line_reader::lemma_parted_terminated(head);
        if body.len() > 0 {
            assert(text[k - 1] == body.last());
            if body.last() == '\r' {
                assert(body.drop_last() =~= text.take(k - 1));
            }
        }
    } else {
        assert(body =~= text);
        lemma_encoding_ends_in(text, '\n');
        crate::line_reader::lemma_lines_of_unterminated(head);
        assert(lines_of(encode_utf8(Seq::<char>::empty())) =~= Seq::<LineView>::empty());
        assert(seq![first_line_read(text)] + Seq::<LineView>::empty() =~= seq![
            first_line_read(text),
        ]);
    }
}

/// The terminator of the first line of a text is encoded as the bytes of
/// the terminator that the line is read with.
proof fn lemma_terminator_bytes(text: Seq<char>)
    ensures
        encode_utf8(first_terminator(text)) == first_line_read(text).ending.bytes(),
{
    lemma_feed_at(text);
    lemma_scalar_bytes('\n');
    lemma_scalar_bytes('\r');
    lemma_encode_one('\n');
    lemma_encode_one('\r');
    if first_line_has_return(text) {
        assert(seq!['\r', '\n'] =~= seq!['\r'] + seq!['\n']);
        lemma_encode_concat(seq!['\r'], seq!['\n']);
        assert(seq![13u8] + seq![10u8] =~= seq![13u8, 10u8]);
    }
}

/// A literal without line breaks is replaced in a text line by line: in
/// the first line, and in what follows it, with the terminator between.
/// It stands in the text exactly where it stands in one of the two.
proof fn lemma_literal_by_line(text: Seq<char>, needle: Seq<char>, with: Seq<char>)
    requires
        needle.len() > 0,
        forall|i: int| 0 <= i < needle.len() ==> needle[i] != '\n' && needle[i] != '\r',
    ensures
        replace_all(text, needle, with) == replace_all(first_line(text), needle, with)
            + first_terminator(text) + replace_all(after_first_line(text), needle, with),
        occurs_in(text, needle) <==> occurs_in(first_line(text), needle) || occurs_in(
            after_first_line(text),
            needle,
        ),
{
    lemma_feed_at(text);
    let t = first_line(text);
    let tail = after_first_line(text);
    let none = Seq::<char>::empty();
    assert(replace_all(none, needle, with) == none);
    assert(!occurs_in(none, needle)) by {
        assert forall|at: int| !occurs_at(none, needle, at) by {}
    }
    if first_line_has_return(text) {
        let body = t.push('\r');
        assert(text =~= body.push('\n') + tail);
        lemma_replace_all_around(body, '\n', tail, needle, with);
        lemma_occurs_around(body, '\n', tail, needle);
        assert(body =~= t.push('\r') + none);
        lemma_replace_all_around(t, '\r', none, needle, with);
        lemma_occurs_around(t, '\r', none, needle);
        assert(replace_all(t, needle, with).push('\r') + none =~= replace_all(
            t,
            needle,
            with,
        ).push('\r'));
        assert(replace_all(t, needle, with).push('\r').push('\n') + replace_all(
            tail,
            needle,
            with,
        ) =~= replace_all(t, needle, with) + first_terminator(text) + replace_all(
            tail,
            needle,
            with,
        ));
    } else if feed_at(text) < text.len() {
        assert(text =~= t.push('\n') + tail);
        lemma_replace_all_around(t, '\n', tail, needle, with);
        lemma_occurs_around(t, '\n', tail, needle);
        assert(replace_all(t, needle, with).push('\n') + replace_all(tail, needle, with)
            =~= replace_all(t, needle, with) + first_terminator(text) + replace_all(
            tail,
            needle,
            with,
        ));
    } else {
        assert(t =~= text);
        assert(replace_all(t, needle, with) + first_terminator(text) + replace_all(
            tail,
            needle,
            with,
        ) =~= replace_all(t, needle, with));
    }
}

/// What replacing a literal makes of a line of text.
pub open spec fn literal_line(line: LineView, needle: Seq<char>, with: Seq<char>) -> LineView {
    LineView {
        content: encode_utf8(replace_all(decode_utf8(line.content), needle, with)),
        ending: line.ending,
    }
}

/// What replacing a literal makes of each of `lines`.
pub open spec fn literal_lines(lines: Seq<LineView>, needle: Seq<char>, with: Seq<char>) -> Seq<
    LineView,
> {
    Seq::new(lines.len(), |i: int| literal_line(lines[i], needle, with))
}

/// The literal stands in one of `lines`.
pub open spec fn occurs_in_a_line(lines: Seq<LineView>, needle: Seq<char>) -> bool {
    exists|i: int| 0 <= i < lines.len() && occurs_in(decode_utf8(#[trigger] lines[i].content), needle)
}

/// Every one of `lines` is text.
pub open spec fn all_text(lines: Seq<LineView>) -> bool {
    forall|i: int| 0 <= i < lines.len() ==> valid_utf8(#[trigger] lines[i].content)
}

/// The lines of an encoded text are text. Replacing a literal without line
/// breaks in each of them and writing them back gives the encoding of the
/// text with the literal replaced, and the literal stands in one of the
/// lines exactly where it stands in the text.
proof fn lemma_literal_lines(text: Seq<char>, needle: Seq<char>, with: Seq<char>)
    requires
        needle.len() > 0,
        forall|i: int| 0 <= i < needle.len() ==> needle[i] != '\n' && needle[i] != '\r',
    ensures
        all_text(lines_of(encode_utf8(text))),
        joined(literal_lines(lines_of(encode_utf8(text)), needle, with)) == encode_utf8(
            replace_all(text, needle, with),
        ),
        occurs_in_a_line(lines_of(encode_utf8(text)), needle) <==> occurs_in(text, needle),
    decreases text.len(),
{
    let lines = lines_of(encode_utf8(text));
    if text.len() == 0 {
        assert(lines =~= Seq::<LineView>::empty());
        assert(literal_lines(lines, needle, with) =~= Seq::<LineView>::empty());
        assert(!occurs_in(text, needle)) by {
            assert forall|at: int| !occurs_at(text, needle, at) by {}
        }
    } else {
        lemma_lines_of_encoding(text);
        lemma_terminator_bytes(text);
        lemma_literal_by_line(text, needle, with);
        let t = first_line(text);
        let tail = after_first_line(text);
        let first = first_line_read(text);
        let rest = lines_of(encode_utf8(tail));
        lemma_literal_lines(tail, needle, with);
        encode_utf8_valid_utf8(t);
        encode_utf8_decode_utf8(t);
        assert(lines == seq![first] + rest);
        assert(all_text(lines)) by {
            assert forall|i: int| 0 <= i < lines.len() implies valid_utf8(
                #[trigger] lines[i].content,
            ) by {
                if i > 0 {
                    assert(lines[i] == rest[i - 1]);
                }
            }
        }
        let done = seq![literal_line(first, needle, with)];
        assert(literal_lines(lines, needle, with) =~= done + literal_lines(rest, needle, with))
            by {
            assert forall|i: int| 0 <= i < lines.len() implies literal_lines(
                lines,
                needle,
                with,
            )[i] == (done + literal_lines(rest, needle, with))[i] by {
                if i > 0 {
                    assert(lines[i] == rest[i - 1]);
                }
            }
        }
        lemma_joined_concat(done, literal_lines(rest, needle, with));
        assert(done.drop_last() =~= Seq::<LineView>::empty());
        assert(joined(done) =~= literal_line(first, needle, with).raw()) by {
            assert(joined(done.drop_last()) =~= Seq::<u8>::empty());
        }
        let new_first = replace_all(t, needle, with);
        let new_tail = replace_all(tail, needle, with);
        lemma_encode_concat(new_first + first_terminator(text), new_tail);
        lemma_encode_concat(new_first, first_terminator(text));
        if occurs_in_a_line(lines, needle) {
            let i = choose|i: int|
                0 <= i < lines.len() && occurs_in(decode_utf8(#[trigger] lines[i].content), needle);
            if i > 0 {
                assert(lines[i] == rest[i - 1]);
                assert(occurs_in_a_line(rest, needle));
            }
        }
        if occurs_in(t, needle) {
            assert(lines[0] == first);
            assert(occurs_in_a_line(lines, needle));
        }
        if occurs_in_a_line(rest, needle) {
            let i = choose|i: int|
                0 <= i < rest.len() && occurs_in(decode_utf8(#[trigger] rest[i].content), needle);
            assert(lines[i + 1] == rest[i]);
            assert(occurs_in_a_line(lines, needle));
        }
    }
}

/// For a literal, what the line-by-line path writes for a line of text is
/// the line with the literal replaced.
proof fn lemma_streamed_literal(line: LineView, needle: Seq<char>, with: Seq<char>)
    requires
        needle.len() > 0,
        valid_utf8(line.content),
    ensures
        streamed_line(line, SearchView::Fixed(needle), with) == literal_line(line, needle, with),
        replacement(decode_utf8(line.content), SearchView::Fixed(needle), with) is Some
            <==> occurs_in(decode_utf8(line.content), needle),
{
    let t = decode_utf8(line.content);
    decode_utf8_encode_utf8(line.content);
    if !occurs_in(t, needle) {
        crate::text::lemma_replace_all_without_occurrence(t, needle, with);
    } else {
        let at = choose|at: int| occurs_at(t, needle, at);
        assert(t.len() > 0);
    }
}

/// The two paths agree on literals: a literal without line breaks is
/// replaced in a file of text to the same effect in memory and line by
/// line, so the threshold does not change what becomes of the file.
pub proof fn lemma_paths_agree_on_literals(
    path: Seq<char>,
    content: Seq<u8>,
    needle: Seq<char>,
    replace: Seq<char>,
    threshold: u64,
    other_threshold: u64,
)
    requires
        valid_utf8(content),
        content.len() <= usize::MAX,
        needle.len() > 0,
        forall|i: int| 0 <= i < needle.len() ==> needle[i] != '\n' && needle[i] != '\r',
    ensures
        crate::replace::replaced_content(
            path,
            content,
            SearchView::Fixed(needle),
            replace,
            threshold,
        ) == crate::replace::replaced_content(
            path,
            content,
            SearchView::Fixed(needle),
            replace,
            other_threshold,
        ),
        chunked(path, content, SearchView::Fixed(needle), replace) == (match replacement(
            decode_utf8(content),
            SearchView::Fixed(needle),
            replace,
        ) {
            Some(text) => Some(encode_utf8(text)),
            None => None,
        }),
{
    let search = SearchView::Fixed(needle);
    let text = decode_utf8(content);
    let lines = lines_of(content);
    decode_utf8_encode_utf8(content);
    crate::line_reader::lemma_lines_of_len(content);
    lemma_streaming_line_by_line(path, content, search, replace);
    lemma_literal_lines(text, needle, replace);
    let found = candidates_of(scan(path, content, search), search, replace);
    assert(streamed(lines, search, replace) =~= literal_lines(lines, needle, replace)) by {
        assert forall|i: int| 0 <= i < lines.len() implies streamed(lines, search, replace)[i]
            == literal_lines(lines, needle, replace)[i] by {
            lemma_streamed_literal(lines[i], needle, replace);
        }
    }
    if occurs_in(text, needle) {
        let i = choose|i: int|
            0 <= i < lines.len() && occurs_in(decode_utf8(#[trigger] lines[i].content), needle);
        lemma_streamed_literal(lines[i], needle, replace);
        assert(found.len() > 0);
        let at = choose|at: int| occurs_at(text, needle, at);
        assert(text.len() > 0);
    } else {
        assert forall|i: int| 0 <= i < lines.len() implies !(valid_utf8(
            (#[trigger] lines[i]).content,
        ) && replacement(decode_utf8(lines[i].content), search, replace) is Some) by {
            lemma_streamed_literal(lines[i], needle, replace);
            if occurs_in(decode_utf8(lines[i].content), needle) {
                assert(occurs_in_a_line(lines, needle));
            }
        }
        assert(found.len() == 0);
    }
}

} // verus!
