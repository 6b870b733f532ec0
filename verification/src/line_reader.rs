//! Splitting a byte stream into lines without losing their terminators.
//!
//! A line ends at the first line feed. A carriage return directly in front of
//! that line feed belongs to the terminator; any other carriage return is
//! content. What follows the last line feed is a line without a terminator,
//! unless nothing follows it.

use vstd::prelude::*;

verus! {

/// How a line ended in the bytes it was read from.
#[derive(Clone, Copy, Debug, PartialEq, Eq, Structural)]
pub enum LineEnding {
    /// The last line of a stream that does not end in a terminator.
    Unterminated,
    /// A single line feed.
    Lf,
    /// A carriage return followed by a line feed.
    CrLf,
}

/// One line of a stream: what stands in front of the terminator, and the
/// terminator.
pub struct Line {
    pub content: Vec<u8>,
    pub ending: LineEnding,
}

/// A line as a value: its content and its terminator.
pub struct LineView {
    pub content: Seq<u8>,
    pub ending: LineEnding,
}

impl View for Line {
    type V = LineView;

    open spec fn view(&self) -> LineView {
        LineView { content: self.content@, ending: self.ending }
    }
}

/// The lines of a list as values.
pub open spec fn line_views(lines: Seq<Line>) -> Seq<LineView> {
    lines.map_values(|l: Line| l@)
}

impl LineEnding {
    /// The bytes of the terminator.
    pub open spec fn bytes(self) -> Seq<u8> {
        match self {
            LineEnding::Unterminated => Seq::empty(),
            LineEnding::Lf => seq![10u8],
            LineEnding::CrLf => seq![13u8, 10u8],
        }
    }

    /// The terminator as it is written to a file.
    pub fn as_bytes(&self) -> (out: Vec<u8>)
        ensures
            out@ == self.bytes(),
    {
        let mut out: Vec<u8> = Vec::new();
        match self {
            LineEnding::Unterminated => {},
            LineEnding::Lf => {
                out.push(10u8);
            },
            LineEnding::CrLf => {
                out.push(13u8);
                out.push(10u8);
            },
        }
        assert(out@ =~= self.bytes());
        out
    }
}

impl LineView {
    /// The bytes the line was read from: content, then terminator.
    pub open spec fn raw(self) -> Seq<u8> {
        self.content + self.ending.bytes()
    }
}

/// The terminator that a chunk of bytes ends in.
pub open spec fn ending_of(raw: Seq<u8>) -> LineEnding {
    if raw.len() >= 2 && raw[raw.len() - 2] == 13u8 && raw[raw.len() - 1] == 10u8 {
        LineEnding::CrLf
    } else if raw.len() >= 1 && raw[raw.len() - 1] == 10u8 {
        LineEnding::Lf
    } else {
        LineEnding::Unterminated
    }
}

/// A chunk of bytes parted into content and terminator.
pub open spec fn parted(raw: Seq<u8>) -> LineView {
    LineView {
        content: raw.take(raw.len() - ending_of(raw).bytes().len()),
        ending: ending_of(raw),
    }
}

/// The length of the first line of `bytes`, terminator included: up to and
/// with the first line feed, or all of `bytes` where there is none.
pub open spec fn first_line_len(bytes: Seq<u8>) -> int
    decreases bytes.len(),
{
    if bytes.len() == 0 {
        0
    } else if bytes[0] == 10u8 {
        1
    } else {
        1 + first_line_len(bytes.skip(1))
    }
}

/// The lines of `bytes`, in order.
pub open spec fn lines_of(bytes: Seq<u8>) -> Seq<LineView>
    decreases bytes.len(),
    via lines_of_decreases
{
    if bytes.len() == 0 {
        Seq::empty()
    } else {
        let n = first_line_len(bytes);
        seq![parted(bytes.take(n))] + lines_of(bytes.skip(n))
    }
}

#[via_fn]
proof fn lines_of_decreases(bytes: Seq<u8>) {
    if bytes.len() != 0 {
        lemma_first_line_len_bounds(bytes);
    }
}

/// The bytes that `lines` are written as, one after the other.
pub open spec fn joined(lines: Seq<LineView>) -> Seq<u8>
    decreases lines.len(),
{
    if lines.len() == 0 {
        Seq::empty()
    } else {
        joined(lines.drop_last()) + lines.last().raw()
    }
}

/// A non-empty stream has a non-empty first line that lies within it.
pub proof fn lemma_first_line_len_bounds(bytes: Seq<u8>)
    requires
        bytes.len() > 0,
    ensures
        0 < first_line_len(bytes) <= bytes.len(),
    decreases bytes.len(),
{
    if bytes[0] != 10u8 {
        if bytes.len() > 1 {
            lemma_first_line_len_bounds(bytes.skip(1));
        } else {
            assert(bytes.skip(1).len() == 0);
            assert(first_line_len(bytes.skip(1)) == 0);
        }
    }
}

/// Parting a chunk loses nothing: content and terminator give it back.
pub proof fn lemma_parted_raw(raw: Seq<u8>)
    ensures
        parted(raw).raw() == raw,
{
    let e = ending_of(raw);
    let n = raw.len() - e.bytes().len();
    assert(raw.skip(n) =~= e.bytes());
    assert(raw =~= raw.take(n) + raw.skip(n));
}

/// Writing lines one list after the other writes their bytes one after the
/// other.
pub proof fn lemma_joined_concat(a: Seq<LineView>, b: Seq<LineView>)
    ensures
        joined(a + b) == joined(a) + joined(b),
    decreases b.len(),
{
    if b.len() == 0 {
        assert(a + b =~= a);
        assert(joined(a) + joined(b) =~= joined(a));
    } else {
        lemma_joined_concat(a, b.drop_last());
        assert((a + b).drop_last() =~= a + b.drop_last());
        assert((a + b).last() == b.last());
        assert(joined(a) + (joined(b.drop_last()) + b.last().raw()) =~= (joined(a) + joined(
            b.drop_last(),
        )) + b.last().raw());
    }
}

/// Reading and writing back is the identity: the lines of a stream, each
/// written with its own terminator, are the stream byte for byte.
pub proof fn lemma_lines_round_trip(bytes: Seq<u8>)
    ensures
        joined(lines_of(bytes)) == bytes,
    decreases bytes.len(),
{
    if bytes.len() == 0 {
    } else {
        let n = first_line_len(bytes);
        lemma_first_line_len_bounds(bytes);
        let head = seq![parted(bytes.take(n))];
        let tail = lines_of(bytes.skip(n));
        lemma_lines_round_trip(bytes.skip(n));
        lemma_joined_concat(head, tail);
        lemma_parted_raw(bytes.take(n));
        assert(head.drop_last() =~= Seq::<LineView>::empty());
        assert(joined(head.drop_last()) =~= Seq::<u8>::empty());
        assert(joined(head) == joined(head.drop_last()) + head.last().raw());
        assert(joined(head) =~= bytes.take(n));
        assert(bytes =~= bytes.take(n) + bytes.skip(n));
    }
}

/// Parts a chunk that was read up to and with a line feed, or up to the end
/// of the stream, into its content and its terminator.
pub fn split_line_ending(raw: Vec<u8>) -> (line: Line)
    ensures
        line@ == parted(raw@),
{
    let n: usize = raw.len();
    let mut content = raw;
    let ending = if n >= 2 && content[n - 2] == 13u8 && content[n - 1] == 10u8 {
        content.truncate(n - 2);
        LineEnding::CrLf
    } else if n >= 1 && content[n - 1] == 10u8 {
        content.truncate(n - 1);
        LineEnding::Lf
    } else {
        LineEnding::Unterminated
    };
    assert(content@ =~= parted(raw@).content);
    Line { content, ending }
}

/// The lines of `bytes`, in order, each with the terminator it was read with.
pub fn read_lines(bytes: &[u8]) -> (lines: Vec<Line>)
    ensures
        line_views(lines@) == lines_of(bytes@),
{
    let mut lines: Vec<Line> = Vec::new();
    let mut start: usize = 0;
    proof {
        assert(bytes@.skip(0) =~= bytes@);
        assert(line_views(lines@) + lines_of(bytes@) =~= lines_of(bytes@));
    }
    while start < bytes.len()
        invariant
            start <= bytes.len(),
            lines_of(bytes@) == line_views(lines@) + lines_of(
                bytes@.skip(start as int),
            ),
        decreases bytes.len() - start,
    {
        let ghost rest = bytes@.skip(start as int);
        let mut raw: Vec<u8> = Vec::new();
        let mut at: usize = start;
        let mut ended: bool = false;
        while at < bytes.len() && !ended
            invariant
                start <= at <= bytes.len(),
                rest == bytes@.skip(start as int),
                raw@ == bytes@.subrange(start as int, at as int),
                ended ==> at > start && bytes@[at - 1] == 10u8,
                forall|k: int| start <= k < at - 1 ==> bytes@[k] != 10u8,
                !ended && at > start ==> bytes@[at - 1] != 10u8,
            decreases bytes.len() - at,
        {
            let b: u8 = bytes[at];
            raw.push(b);
            if b == 10u8 {
                ended = true;
            }
            at += 1;
            assert(raw@ =~= bytes@.subrange(start as int, at as int));
        }
        proof {
            lemma_first_line_len_is(rest, at - start);
            assert(rest.take(at - start) =~= raw@);
            assert(rest.skip(at - start) =~= bytes@.skip(at as int));
        }
        let ghost before = line_views(lines@);
        let line = split_line_ending(raw);
        lines.push(line);
        proof {
            assert(line_views(lines@) =~= before + seq![line@]);
            assert(before + (seq![line@] + lines_of(bytes@.skip(at as int))) =~= (before
                + seq![line@]) + lines_of(bytes@.skip(at as int)));
        }
        start = at;
    }
    proof {
        assert(line_views(lines@) + Seq::<LineView>::empty()
            =~= line_views(lines@));
    }
    lines
}

/// A prefix without a line feed before its last byte, which is a line feed
/// or the end of the stream, is the first line.
pub proof fn lemma_first_line_len_is(bytes: Seq<u8>, n: int)
    requires
        0 < n <= bytes.len(),
        forall|k: int| 0 <= k < n - 1 ==> bytes[k] != 10u8,
        bytes[n - 1] == 10u8 || n == bytes.len(),
    ensures
        first_line_len(bytes) == n,
    decreases bytes.len(),
{
    if bytes[0] == 10u8 {
        if n > 1 {
            assert(bytes[0] != 10u8);
        }
    } else {
        if n == 1 {
            assert(bytes.len() == 1);
            assert(bytes.skip(1).len() == 0);
            assert(first_line_len(bytes.skip(1)) == 0);
        } else {
            let rest = bytes.skip(1);
            assert forall|k: int| 0 <= k < n - 2 implies rest[k] != 10u8 by {
                assert(rest[k] == bytes[k + 1]);
            }
            assert(rest[n - 2] == bytes[n - 1]);
            lemma_first_line_len_is(rest, n - 1);
        }
    }
}

/// A chunk that ends in a line feed is parted at its terminator: a carriage
/// return in front of the line feed belongs to the terminator.
pub proof fn lemma_parted_terminated(head: Seq<u8>)
    ensures
        parted(head.push(10u8)) == (if head.len() > 0 && head.last() == 13u8 {
            LineView { content: head.drop_last(), ending: LineEnding::CrLf }
        } else {
            LineView { content: head, ending: LineEnding::Lf }
        }),
{
    let raw = head.push(10u8);
    if head.len() > 0 && head.last() == 13u8 {
        assert(raw[raw.len() - 2] == head.last());
        assert(raw.take(raw.len() - 2) =~= head.drop_last());
    } else {
        if head.len() > 0 {
            assert(raw[raw.len() - 2] == head.last());
        }
        assert(raw.take(raw.len() - 1) =~= head);
    }
}

/// Bytes without a line feed, then a line feed, are the first line of a
/// stream, whatever follows.
pub proof fn lemma_lines_of_terminated(head: Seq<u8>, rest: Seq<u8>)
    requires
        forall|j: int| 0 <= j < head.len() ==> head[j] != 10u8,
    ensures
        lines_of(head.push(10u8) + rest) == seq![parted(head.push(10u8))] + lines_of(rest),
{
    let raw = head.push(10u8);
    let bytes = raw + rest;
    let n = raw.len() as int;
    assert forall|j: int| 0 <= j < n - 1 implies bytes[j] != 10u8 by {
        assert(bytes[j] == head[j]);
    }
    assert(bytes[n - 1] == 10u8);
    lemma_first_line_len_is(bytes, n);
    assert(bytes.take(n) =~= raw);
    assert(bytes.skip(n) =~= rest);
}

/// Bytes without a line feed are one line without a terminator.
pub proof fn lemma_lines_of_unterminated(head: Seq<u8>)
    requires
        head.len() > 0,
        forall|j: int| 0 <= j < head.len() ==> head[j] != 10u8,
    ensures
        lines_of(head) == seq![LineView { content: head, ending: LineEnding::Unterminated }],
{
    let n = head.len() as int;
    lemma_first_line_len_is(head, n);
    assert(head.take(n) =~= head);
    assert(head.skip(n) =~= Seq::<u8>::empty());
    assert(head[n - 1] != 10u8);
    assert(ending_of(head) == LineEnding::Unterminated);
    assert(head.take(n - 0) =~= head);
    assert(lines_of(head.skip(n)) =~= Seq::<LineView>::empty());
    assert(seq![parted(head)] + Seq::<LineView>::empty() =~= seq![parted(head)]);
}

/// A stream has at most as many lines as bytes.
pub proof fn lemma_lines_of_len(bytes: Seq<u8>)
    ensures
        lines_of(bytes).len() <= bytes.len(),
    decreases bytes.len(),
{
    if bytes.len() > 0 {
        lemma_first_line_len_bounds(bytes);
        lemma_lines_of_len(bytes.skip(first_line_len(bytes)));
    }
}

} // verus!
