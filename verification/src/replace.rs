//! Computing replacements, the rewrite pass over the lines of a file, and the
//! statistics of what the pass did.

use crate::engine::{
    decode_text, fancy_replace, fancy_replace_all, regex_replace, regex_replace_all,
    string_from_chars,
};
use crate::search::{
    candidate_views, contains_search, result_views, scan, search_file, CandidateView,
    SearchResult, SearchResultView, SearchResultWithReplacement, SearchType, SearchView,
};
use crate::line_reader::{joined, line_views, lines_of, read_lines, Line, LineView};
use crate::text::{replace_all, to_chars};
use std::collections::HashMap;
use vstd::prelude::*;
use vstd::utf8::*;

verus! {

/// What came of one candidate in the rewrite pass.
#[derive(Clone, Debug, PartialEq, Eq)]
pub enum ReplaceResult {
    /// The line was replaced.
    Success,
    /// The line was left as it is, for the reason given.
    Error(String),
}

/// The outcome of a candidate as a value.
pub enum ReplaceResultView {
    Success,
    Error(Seq<char>),
}

impl View for ReplaceResult {
    type V = ReplaceResultView;

    open spec fn view(&self) -> ReplaceResultView {
        match self {
            ReplaceResult::Success => ReplaceResultView::Success,
            ReplaceResult::Error(reason) => ReplaceResultView::Error(reason@),
        }
    }
}

/// An optional outcome as a value.
pub open spec fn outcome_of(result: Option<ReplaceResult>) -> Option<ReplaceResultView> {
    match result {
        Some(outcome) => Some(outcome@),
        None => None,
    }
}

/// The text that stands in place of `line` once `search` is replaced by
/// `replace` in it, or `None` where nothing is to be replaced: in an empty
/// line, for an empty pattern, and where the pattern does not match.
pub open spec fn replacement(line: Seq<char>, search: SearchView, replace: Seq<char>) -> Option<
    Seq<char>,
> {
    if line.len() == 0 || search.is_empty() || !search.matches(line) {
        None
    } else {
        match search {
            SearchView::Fixed(needle) => Some(replace_all(line, needle, replace)),
            SearchView::Pattern(source) => Some(regex_replace_all(source, line, replace)),
            SearchView::PatternAdvanced(source) => fancy_replace_all(source, line, replace),
        }
    }
}

/// Replaces every match of `search` in `line` by `replace`. `None` where the
/// line is empty, the pattern is empty or does not match, or the backtracking
/// engine gives up.
pub fn replacement_if_match(line: &str, search: &SearchType, replace: &str) -> (replaced: Option<
    String,
>)
    ensures
        replaced is Some <==> replacement(line@, search@, replace@) is Some,
        replaced matches Some(text) ==> replacement(line@, search@, replace@) == Some(text@),
{
    if line.is_empty() || search.is_empty() {
        return None;
    }
    if !contains_search(line, search) {
        return None;
    }
    match search {
        SearchType::Fixed(needle) => {
            let text = to_chars(line);
            let needle = to_chars(needle.as_str());
            let with = to_chars(replace);
            let out = crate::text::replace(&text, &needle, &with);
            Some(string_from_chars(&out))
        },
        SearchType::Pattern(source) => regex_replace(source.as_str(), line, replace),
        SearchType::PatternAdvanced(source) => fancy_replace(source.as_str(), line, replace),
    }
}

/// Makes a candidate of a search result: the result with the text that is to
/// stand in place of its line. `None` where the pattern no longer matches the
/// line that the result holds.
pub fn add_replacement(search_result: SearchResult, search: &SearchType, replace: &str) -> (r:
    Option<SearchResultWithReplacement>)
    ensures
        r is Some <==> replacement(search_result@.line, search@, replace@) is Some,
        r matches Some(candidate) ==> candidate@ == (CandidateView {
            search_result: search_result@,
            replacement: replacement(search_result@.line, search@, replace@).unwrap(),
            replace_result: None,
        }),
{
    match replacement_if_match(search_result.line.as_str(), search, replace) {
        Some(replacement) => Some(
            SearchResultWithReplacement { search_result, replacement, replace_result: None },
        ),
        None => None,
    }
}

/// The line numbers of the candidates, in order.
pub open spec fn line_numbers(candidates: Seq<CandidateView>) -> Seq<usize> {
    candidates.map_values(|c: CandidateView| c.search_result.line_number)
}

/// For each line number, the position of the candidate that stands for the
/// line: where several candidates name one line, the last of them.
pub open spec fn line_index(numbers: Seq<usize>) -> Map<usize, usize>
    decreases numbers.len(),
{
    if numbers.len() == 0 {
        Map::empty()
    } else {
        line_index(numbers.drop_last()).insert(numbers.last(), (numbers.len() - 1) as usize)
    }
}

/// The candidate that stands for line `number`, if there is one.
pub open spec fn candidate_for(candidates: Seq<CandidateView>, number: usize) -> Option<int> {
    let index = line_index(line_numbers(candidates));
    if index.contains_key(number) {
        Some(index[number] as int)
    } else {
        None
    }
}

/// The line is still what the candidate was made from, byte for byte.
pub open spec fn unchanged_since_search(line: LineView, candidate: CandidateView) -> bool {
    line.content == encode_utf8(candidate.search_result.line)
}

/// What the rewrite pass writes for line `number`: the replacement of its
/// candidate where the line is unchanged since the search, else the line as
/// it was read; either way with the terminator it was read with.
pub open spec fn rewritten_line(line: LineView, number: usize, candidates: Seq<CandidateView>)
    -> LineView {
    match candidate_for(candidates, number) {
        Some(j) => if unchanged_since_search(line, candidates[j]) {
            LineView { content: encode_utf8(candidates[j].replacement), ending: line.ending }
        } else {
            line
        },
        None => line,
    }
}

/// What the rewrite pass writes for `lines`.
pub open spec fn rewritten(lines: Seq<LineView>, candidates: Seq<CandidateView>) -> Seq<LineView> {
    Seq::new(
        lines.len(),
        |i: int| rewritten_line(lines[i], (i + 1) as usize, candidates),
    )
}

/// The reason given where a line differs from what its candidate was made
/// from.
pub open spec fn file_changed() -> Seq<char> {
    "File changed since last search"@
}

/// What candidate `j` carries once the rewrite pass has met the first `done`
/// of `lines`: the verdict on its line where the pass has met it and the
/// candidate stands for it, else what it carried before.
pub open spec fn outcome_after(
    lines: Seq<LineView>,
    candidates: Seq<CandidateView>,
    j: int,
    done: int,
) -> Option<ReplaceResultView> {
    let number = candidates[j].search_result.line_number;
    if 1 <= number <= done && number <= lines.len() && candidate_for(candidates, number) == Some(
        j,
    ) {
        if unchanged_since_search(lines[number - 1], candidates[j]) {
            Some(ReplaceResultView::Success)
        } else {
            Some(ReplaceResultView::Error(file_changed()))
        }
    } else {
        candidates[j].replace_result
    }
}

/// The candidates once the rewrite pass has met the first `done` of `lines`.
pub open spec fn candidates_after(lines: Seq<LineView>, candidates: Seq<CandidateView>, done: int)
    -> Seq<CandidateView> {
    Seq::new(
        candidates.len(),
        |j: int|
            CandidateView {
                search_result: candidates[j].search_result,
                replacement: candidates[j].replacement,
                replace_result: outcome_after(lines, candidates, j, done),
            },
    )
}

/// The index that the rewrite pass finds its candidates by.
pub fn index_by_line(results: &Vec<SearchResultWithReplacement>) -> (index: HashMap<usize, usize>)
    ensures
        index@ == line_index(line_numbers(candidate_views(results@))),
{
    let ghost numbers = line_numbers(candidate_views(results@));
    let mut index: HashMap<usize, usize> = HashMap::new();
    let mut i: usize = 0;
    assert(numbers.take(0) =~= Seq::<usize>::empty());
    while i < results.len()
        invariant
            i <= results.len(),
            numbers == line_numbers(candidate_views(results@)),
            index@ == line_index(numbers.take(i as int)),
        decreases results.len() - i,
    {
        index.insert(results[i].search_result.line_number, i);
        proof {
            assert(numbers.take(i + 1).drop_last() =~= numbers.take(i as int));
            assert(numbers.take(i + 1).last() == results@[i as int]@.search_result.line_number);
        }
        i += 1;
    }
    assert(numbers.take(i as int) =~= numbers);
    index
}

/// Whether two byte strings are equal.
pub fn same_bytes(a: &[u8], b: &[u8]) -> (same: bool)
    ensures
        same == (a@ == b@),
{
    if a.len() != b.len() {
        return false;
    }
    let mut i: usize = 0;
    while i < a.len()
        invariant
            i <= a.len(),
            a.len() == b.len(),
            forall|k: int| 0 <= k < i ==> a@[k] == b@[k],
        decreases a.len() - i,
    {
        if a[i] != b[i] {
            return false;
        }
        i += 1;
    }
    assert(a@ =~= b@);
    true
}

/// The rewrite pass at one line: the bytes to write for it. Where a candidate
/// stands for the line, the candidate is marked with what came of it.
pub fn replace_line(
    results: &mut Vec<SearchResultWithReplacement>,
    index: &HashMap<usize, usize>,
    number: usize,
    line: Line,
) -> (out: Vec<u8>)
    requires
        index@ == line_index(line_numbers(candidate_views(old(results)@))),
    ensures
        out@ == rewritten_line(line@, number, candidate_views(old(results)@)).raw(),
        final(results)@.len() == old(results)@.len(),
        forall|j: int|
            0 <= j < old(results)@.len() ==> (#[trigger] final(results)@[j])@ == (CandidateView {
                replace_result: if candidate_for(candidate_views(old(results)@), number) == Some(
                    j,
                ) {
                    if unchanged_since_search(line@, old(results)@[j]@) {
                        Some(ReplaceResultView::Success)
                    } else {
                        Some(ReplaceResultView::Error(file_changed()))
                    }
                } else {
                    old(results)@[j]@.replace_result
                },
                ..old(results)@[j]@
            }),
{
    let Line { content, ending } = line;
    let mut out: Vec<u8> = content;
    match index.get(&number) {
        Some(at) => {
            let j: usize = *at;
            proof {
                assert(line_numbers(candidate_views(results@)).len() == results.len());
                lemma_line_index_in_range(line_numbers(candidate_views(results@)), number);
            }
            if same_bytes(out.as_slice(), results[j].search_result.line.as_str().as_bytes()) {
                out = Vec::new();
                out.extend_from_slice(results[j].replacement.as_str().as_bytes());
                results[j].replace_result = Some(ReplaceResult::Success);
            } else {
                results[j].replace_result = Some(
                    ReplaceResult::Error("File changed since last search".to_owned()),
                );
            }
        },
        None => {},
    }
    let terminator = ending.as_bytes();
    out.extend_from_slice(terminator.as_slice());
    out
}

/// The rewrite pass over the content of one file. Each line that a candidate
/// stands for is replaced where it is still what the candidate was made from,
/// and kept where it is not; every other line is copied. Each line is written
/// with the terminator it was read with. The candidates that the pass meets
/// are marked with what came of them; a candidate whose line the content does
/// not have keeps what it carried.
pub fn replace_in_file(content: &[u8], results: &mut Vec<SearchResultWithReplacement>) -> (out:
    Vec<u8>)
    ensures
        out@ == joined(rewritten(lines_of(content@), candidate_views(old(results)@))),
        candidate_views(final(results)@) == candidates_after(
            lines_of(content@),
            candidate_views(old(results)@),
            lines_of(content@).len() as int,
        ),
{
    let ghost before = candidate_views(results@);
    let count: usize = results.len();
    let index = index_by_line(results);
    let lines = read_lines(content);
    let ghost all = line_views(lines@);
    let mut out: Vec<u8> = Vec::new();
    let mut number: usize = 0;
    proof {
        assert(all.len() == lines.len());
        assert(candidate_views(results@) =~= candidates_after(all, before, 0));
        assert(rewritten(all, before).take(0) =~= Seq::<LineView>::empty());
    }
    for line in it: lines
        invariant
            all == lines_of(content@),
            all == line_views(it.seq()),
            all.len() <= usize::MAX,
            number == it.index(),
            before.len() == results@.len(),
            before.len() == count,
            index@ == line_index(line_numbers(before)),
            candidate_views(results@) == candidates_after(all, before, number as int),
            out@ == joined(rewritten(all, before).take(number as int)),
    {
        let ghost current = candidate_views(results@);
        let ghost written = rewritten(all, before).take(number as int);
        proof {
            assert(line@ == all[number as int]);
            assert(line_numbers(current) =~= line_numbers(before));
        }
        number += 1;
        let piece = replace_line(results, &index, number, line);
        out.extend_from_slice(piece.as_slice());
        proof {
            let l = all[number - 1];
            assert(line_numbers(before).len() == before.len());
            lemma_line_index_in_range(line_numbers(before), number);
            assert(candidate_for(current, number) == candidate_for(before, number));
            if candidate_for(before, number) is Some {
                let j = candidate_for(before, number).unwrap();
                assert(current[j].search_result == before[j].search_result);
                assert(current[j].replacement == before[j].replacement);
            }
            assert(rewritten_line(l, number, current) == rewritten_line(l, number, before));
            let now = rewritten(all, before).take(number as int);
            assert(now.drop_last() =~= written);
            assert(now.last() == rewritten_line(l, number, before));
            assert forall|j: int| 0 <= j < before.len() implies candidate_views(results@)[j]
                == candidates_after(all, before, number as int)[j] by {
                assert(current[j].search_result == before[j].search_result);
                assert(candidate_views(results@)[j] == results@[j]@);
            }
            assert(candidate_views(results@) =~= candidates_after(all, before, number as int));
        }
    }
    proof {
        assert(rewritten(all, before).take(number as int) =~= rewritten(all, before));
    }
    out
}

/// The counts that a run reports: how many candidates were replaced, and the
/// candidates that were not, each with the reason.
#[derive(Clone, Debug, PartialEq, Eq)]
pub struct ReplaceStats {
    pub num_successes: usize,
    pub errors: Vec<SearchResultWithReplacement>,
}

/// The statistics as a value.
pub struct ReplaceStatsView {
    pub num_successes: nat,
    pub errors: Seq<CandidateView>,
}

impl View for ReplaceStats {
    type V = ReplaceStatsView;

    open spec fn view(&self) -> ReplaceStatsView {
        ReplaceStatsView {
            num_successes: self.num_successes as nat,
            errors: candidate_views(self.errors@),
        }
    }
}

/// The reason given for a candidate that the rewrite pass never met.
pub open spec fn not_found() -> Seq<char> {
    "Failed to find search result in file"@
}

/// How many of the candidates were replaced.
pub open spec fn successes(candidates: Seq<CandidateView>) -> nat
    decreases candidates.len(),
{
    if candidates.len() == 0 {
        0
    } else if candidates.last().replace_result == Some(ReplaceResultView::Success) {
        successes(candidates.drop_last()) + 1
    } else {
        successes(candidates.drop_last())
    }
}

/// A candidate that was not replaced, as the statistics list it: with its
/// reason, and with the reason for not being met where it carries none.
pub open spec fn as_failure(candidate: CandidateView) -> CandidateView {
    match candidate.replace_result {
        None => CandidateView {
            replace_result: Some(ReplaceResultView::Error(not_found())),
            ..candidate
        },
        Some(_) => candidate,
    }
}

/// The candidates that were not replaced, in order.
pub open spec fn failures(candidates: Seq<CandidateView>) -> Seq<CandidateView>
    decreases candidates.len(),
{
    if candidates.len() == 0 {
        Seq::empty()
    } else if candidates.last().replace_result == Some(ReplaceResultView::Success) {
        failures(candidates.drop_last())
    } else {
        failures(candidates.drop_last()).push(as_failure(candidates.last()))
    }
}

/// Every candidate is counted once: as a success or as a failure.
pub proof fn lemma_statistics_complete(candidates: Seq<CandidateView>)
    ensures
        successes(candidates) + failures(candidates).len() == candidates.len(),
    decreases candidates.len(),
{
    if candidates.len() > 0 {
        lemma_statistics_complete(candidates.drop_last());
    }
}

/// Folds the candidates of a run into its statistics. A candidate without an
/// outcome is one that the rewrite pass never met: it is listed as a failure,
/// never dropped. Only candidates that were to be replaced may be handed in.
pub fn calculate_statistics(results: Vec<SearchResultWithReplacement>) -> (stats: ReplaceStats)
    requires
        forall|j: int| 0 <= j < results@.len() ==> (#[trigger] results@[j]).search_result.included,
    ensures
        stats@ == statistics(candidate_views(results@)),
        stats@.num_successes + stats@.errors.len() == results@.len(),
{
    let ghost all = candidate_views(results@);
    let mut num_successes: usize = 0;
    let mut errors: Vec<SearchResultWithReplacement> = Vec::new();
    let ghost mut seen: int = 0;
    proof {
        assert(all.take(0) =~= Seq::<CandidateView>::empty());
        assert(all.len() == results.len());
    }
    for result in it: results
        invariant
            all == candidate_views(it.seq()),
            all.len() <= usize::MAX,
            seen == it.index(),
            num_successes == successes(all.take(seen)),
            candidate_views(errors@) == failures(all.take(seen)),
            num_successes + errors@.len() == seen,
    {
        let ghost earlier = candidate_views(errors@);
        proof {
            assert(result@ == all[seen]);
            assert(all.take(seen + 1).drop_last() =~= all.take(seen));
            assert(all.take(seen + 1).last() == result@);
            seen = seen + 1;
        }
        let SearchResultWithReplacement { search_result, replacement, replace_result } = result;
        match replace_result {
            Some(ReplaceResult::Success) => {
                num_successes += 1;
            },
            None => {
                let listed = SearchResultWithReplacement {
                    search_result,
                    replacement,
                    replace_result: Some(
                        ReplaceResult::Error("Failed to find search result in file".to_owned()),
                    ),
                };
                errors.push(listed);
                assert(candidate_views(errors@) =~= earlier.push(listed@));
            },
            Some(ReplaceResult::Error(reason)) => {
                let listed = SearchResultWithReplacement {
                    search_result,
                    replacement,
                    replace_result: Some(ReplaceResult::Error(reason)),
                };
                errors.push(listed);
                assert(candidate_views(errors@) =~= earlier.push(listed@));
            },
        }
    }
    proof {
        assert(all.take(seen) =~= all);
    }
    ReplaceStats { num_successes, errors }
}

/// The statistics of two runs taken together: the successes of both, and
/// the failures of the first followed by those of the second.
pub open spec fn merged(a: ReplaceStatsView, b: ReplaceStatsView) -> ReplaceStatsView {
    ReplaceStatsView {
        num_successes: a.num_successes + b.num_successes,
        errors: a.errors + b.errors,
    }
}

/// Takes the statistics of two runs together, as when files are handled by
/// several workers and their counts are brought together at the end. The sum
/// of the successes must fit the machine's word.
pub fn merge_statistics(a: ReplaceStats, b: ReplaceStats) -> (both: ReplaceStats)
    requires
        a@.num_successes + b@.num_successes <= usize::MAX,
    ensures
        both@ == merged(a@, b@),
{
    let ReplaceStats { num_successes: first, errors: mut errors } = a;
    let ReplaceStats { num_successes: second, errors: mut later } = b;
    let ghost front = candidate_views(errors@);
    let ghost back = candidate_views(later@);
    errors.append(&mut later);
    assert(candidate_views(errors@) =~= front + back);
    ReplaceStats { num_successes: first + second, errors }
}

/// The statistics of a list of candidates.
pub open spec fn statistics(candidates: Seq<CandidateView>) -> ReplaceStatsView {
    ReplaceStatsView { num_successes: successes(candidates), errors: failures(candidates) }
}

/// Folding two lists of candidates one after the other gives what folding
/// each and merging gives: the fold can be split among workers at any point.
pub proof fn lemma_statistics_split(a: Seq<CandidateView>, b: Seq<CandidateView>)
    ensures
        statistics(a + b) == merged(statistics(a), statistics(b)),
    decreases b.len(),
{
    if b.len() == 0 {
        assert(a + b =~= a);
        assert(failures(a) + failures(b) =~= failures(a));
    } else {
        lemma_statistics_split(a, b.drop_last());
        assert((a + b).drop_last() =~= a + b.drop_last());
        assert((a + b).last() == b.last());
        if b.last().replace_result != Some(ReplaceResultView::Success) {
            assert(failures(a) + failures(b.drop_last()).push(as_failure(b.last())) =~= (failures(
                a,
            ) + failures(b.drop_last())).push(as_failure(b.last())));
        }
    }
}

/// Merging is associative.
pub proof fn lemma_merge_associative(a: ReplaceStatsView, b: ReplaceStatsView, c: ReplaceStatsView)
    ensures
        merged(merged(a, b), c) == merged(a, merged(b, c)),
{
    assert((a.errors + b.errors) + c.errors =~= a.errors + (b.errors + c.errors));
}

/// Merging in either order gives the same count and the same failures, up
/// to the order in which they are listed.
pub proof fn lemma_merge_commutative(a: ReplaceStatsView, b: ReplaceStatsView)
    ensures
        merged(a, b).num_successes == merged(b, a).num_successes,
        merged(a, b).errors.to_multiset() == merged(b, a).errors.to_multiset(),
{
    vstd::seq_lib::lemma_multiset_commutative(a.errors, b.errors);
    vstd::seq_lib::lemma_multiset_commutative(b.errors, a.errors);
    assert(a.errors.to_multiset().add(b.errors.to_multiset()) =~= b.errors.to_multiset().add(
        a.errors.to_multiset(),
    ));
}

/// The size up to which a file is replaced in memory: 100 MiB.
pub const MAX_FILE_SIZE: u64 = 104857600;

/// The in-memory path on the text of a file: the whole content is one unit
/// that the pattern is replaced in. `None` where nothing is to be replaced.
pub fn replace_in_memory(content: &str, search: &SearchType, replace: &str) -> (replaced: Option<
    String,
>)
    ensures
        replaced is Some <==> replacement(content@, search@, replace@) is Some,
        replaced matches Some(text) ==> replacement(content@, search@, replace@) == Some(text@),
{
    replacement_if_match(content, search, replace)
}

/// The candidates that search results give, in order: each result that the
/// pattern can be replaced in, with its replacement and no outcome yet.
pub open spec fn candidates_of(
    results: Seq<SearchResultView>,
    search: SearchView,
    replace: Seq<char>,
) -> Seq<CandidateView>
    decreases results.len(),
{
    if results.len() == 0 {
        Seq::empty()
    } else {
        match replacement(results.last().line, search, replace) {
            Some(text) => candidates_of(results.drop_last(), search, replace).push(
                CandidateView {
                    search_result: results.last(),
                    replacement: text,
                    replace_result: None,
                },
            ),
            None => candidates_of(results.drop_last(), search, replace),
        }
    }
}

/// What the line-by-line path makes of a file: the rewritten content, or
/// `None` where no line gives a candidate.
pub open spec fn chunked(path: Seq<char>, content: Seq<u8>, search: SearchView, replace: Seq<char>)
    -> Option<Seq<u8>> {
    let candidates = candidates_of(scan(path, content, search), search, replace);
    if candidates.len() == 0 {
        None
    } else {
        Some(joined(rewritten(lines_of(content), candidates)))
    }
}

/// The line-by-line path on the content of a file: the scanning pass, then
/// the rewrite pass over the candidates it gives. `None` where there is
/// nothing to replace.
pub fn replace_chunked(path: &str, content: &[u8], search: &SearchType, replace: &str) -> (out:
    Option<Vec<u8>>)
    ensures
        out is Some <==> chunked(path@, content@, search@, replace@) is Some,
        out matches Some(bytes) ==> chunked(path@, content@, search@, replace@) == Some(bytes@),
{
    let found = search_file(path, content, search);
    let ghost all = result_views(found@);
    let mut candidates: Vec<SearchResultWithReplacement> = Vec::new();
    let ghost mut seen: int = 0;
    proof {
        assert(all.take(0) =~= Seq::<SearchResultView>::empty());
    }
    for result in it: found
        invariant
            all == result_views(it.seq()),
            seen == it.index(),
            candidate_views(candidates@) == candidates_of(all.take(seen), search@, replace@),
    {
        let ghost earlier = candidate_views(candidates@);
        proof {
            assert(result@ == all[seen]);
            assert(all.take(seen + 1).drop_last() =~= all.take(seen));
            assert(all.take(seen + 1).last() == result@);
            seen = seen + 1;
        }
        match add_replacement(result, search, replace) {
            Some(candidate) => {
                candidates.push(candidate);
                assert(candidate_views(candidates@) =~= earlier.push(candidate@));
            },
            None => {},
        }
    }
    proof {
        assert(all.take(seen) =~= all);
    }
    if candidates.len() == 0 {
        None
    } else {
        Some(replace_in_file(content, &mut candidates))
    }
}

/// What becomes of the content of a file: up to `threshold` bytes of text are
/// replaced in memory as one unit; any other content goes line by line.
/// `None` where the file stays as it is.
pub open spec fn replaced_content(
    path: Seq<char>,
    content: Seq<u8>,
    search: SearchView,
    replace: Seq<char>,
    threshold: u64,
) -> Option<Seq<u8>> {
    if content.len() <= threshold && valid_utf8(content) {
        match replacement(decode_utf8(content), search, replace) {
            Some(text) => Some(encode_utf8(text)),
            None => None,
        }
    } else {
        chunked(path, content, search, replace)
    }
}

/// Replaces `search` by `replace` in the content of one file, in memory where
/// the content is text of at most `threshold` bytes, line by line where it is
/// larger or is not text. `None` where the file stays as it is.
pub fn replace_all_in_file(
    path: &str,
    content: &[u8],
    search: &SearchType,
    replace: &str,
    threshold: u64,
) -> (out: Option<Vec<u8>>)
    ensures
        out is Some <==> replaced_content(path@, content@, search@, replace@, threshold) is Some,
        out matches Some(bytes) ==> replaced_content(path@, content@, search@, replace@, threshold)
            == Some(bytes@),
{
    if content.len() as u64 <= threshold {
        let mut copy: Vec<u8> = Vec::new();
        copy.extend_from_slice(content);
        assert(copy@ =~= content@);
        match decode_text(copy) {
            Some(text) => {
                return match replace_in_memory(text.as_str(), search, replace) {
                    Some(replaced) => {
                        let mut bytes: Vec<u8> = Vec::new();
                        bytes.extend_from_slice(replaced.as_str().as_bytes());
                        assert(bytes@ =~= encode_utf8(replaced@));
                        Some(bytes)
                    },
                    None => None,
                };
            },
            None => {},
        }
    }
    replace_chunked(path, content, search, replace)
}

/// `line` once `search` is replaced by `replace` in it: the replacement where
/// there is one, else the line.
pub open spec fn applied(line: Seq<char>, search: SearchView, replace: Seq<char>) -> Seq<char> {
    match replacement(line, search, replace) {
        Some(text) => text,
        None => line,
    }
}

/// An empty pattern is replaced nowhere: not in a line, empty or not, and not
/// in a file, whatever the path taken.
pub proof fn lemma_empty_search_never_replaces(
    path: Seq<char>,
    content: Seq<u8>,
    line: Seq<char>,
    search: SearchView,
    replace: Seq<char>,
    threshold: u64,
)
    requires
        search.is_empty(),
    ensures
        replacement(line, search, replace) is None,
        applied(line, search, replace) == line,
        scan(path, content, search).len() == 0,
        chunked(path, content, search, replace) is None,
        replaced_content(path, content, search, replace, threshold) is None,
{
}

/// A text that the pattern does not match stays as it is.
pub proof fn lemma_no_match_no_replacement(line: Seq<char>, search: SearchView, replace: Seq<char>)
    requires
        !search.matches(line),
    ensures
        replacement(line, search, replace) is None,
        applied(line, search, replace) == line,
{
}

/// Replacing a second time changes nothing where the text after the first
/// replacement holds no match.
pub proof fn lemma_replacing_twice(line: Seq<char>, search: SearchView, replace: Seq<char>)
    requires
        !search.matches(applied(line, search, replace)),
    ensures
        applied(applied(line, search, replace), search, replace) == applied(line, search, replace),
{
}

/// The rewrite pass writes as many lines as it reads, each with the
/// terminator it was read with.
pub proof fn lemma_rewrite_keeps_terminators(lines: Seq<LineView>, candidates: Seq<CandidateView>)
    ensures
        rewritten(lines, candidates).len() == lines.len(),
        forall|i: int|
            0 <= i < lines.len() ==> (#[trigger] rewritten(lines, candidates)[i]).ending
                == lines[i].ending,
{
}

/// A line for which no candidate stands, or which differs from what its
/// candidate was made from, is written as it was read.
pub proof fn lemma_rewrite_keeps_other_lines(
    lines: Seq<LineView>,
    candidates: Seq<CandidateView>,
    i: int,
)
    requires
        0 <= i < lines.len(),
        match candidate_for(candidates, (i + 1) as usize) {
            Some(j) => !unchanged_since_search(lines[i], candidates[j]),
            None => true,
        },
    ensures
        rewritten(lines, candidates)[i] == lines[i],
{
}

/// A candidate whose line differs from what it was made from is marked as
/// failed because the file changed, and its line is written as it was read.
pub proof fn lemma_changed_line_is_reported(
    lines: Seq<LineView>,
    candidates: Seq<CandidateView>,
    j: int,
)
    requires
        0 <= j < candidates.len(),
        1 <= candidates[j].search_result.line_number <= lines.len(),
        candidate_for(candidates, candidates[j].search_result.line_number) == Some(j),
        !unchanged_since_search(
            lines[candidates[j].search_result.line_number - 1],
            candidates[j],
        ),
    ensures
        candidates_after(lines, candidates, lines.len() as int)[j].replace_result == Some(
            ReplaceResultView::Error(file_changed()),
        ),
        rewritten(lines, candidates)[candidates[j].search_result.line_number - 1]
            == lines[candidates[j].search_result.line_number - 1],
{
}

/// A rewrite pass in which no line is replaced writes the content it read,
/// byte for byte.
pub proof fn lemma_rewrite_without_replacement(content: Seq<u8>, candidates: Seq<CandidateView>)
    requires
        forall|i: int|
            0 <= i < lines_of(content).len() ==> match candidate_for(
                candidates,
                (i + 1) as usize,
            ) {
                Some(j) => !unchanged_since_search(#[trigger] lines_of(content)[i], candidates[j]),
                None => true,
            },
    ensures
        joined(rewritten(lines_of(content), candidates)) == content,
{
    assert(rewritten(lines_of(content), candidates) =~= lines_of(content));
    crate::line_reader::lemma_lines_round_trip(content);
}

/// Where the pattern occurs neither in a line of a file nor in its content
/// as a whole, the file stays as it is, whatever the path taken.
pub proof fn lemma_no_match_leaves_file(
    path: Seq<char>,
    content: Seq<u8>,
    search: SearchView,
    replace: Seq<char>,
    threshold: u64,
)
    requires
        valid_utf8(content) ==> !search.matches(decode_utf8(content)),
        forall|i: int|
            0 <= i < lines_of(content).len() ==> !(valid_utf8(
                (#[trigger] lines_of(content)[i]).content,
            ) && search.matches(decode_utf8(lines_of(content)[i].content))),
    ensures
        scan(path, content, search).len() == 0,
        replaced_content(path, content, search, replace, threshold) is None,
{
    lemma_hits_of_unmatched(path, lines_of(content), search, lines_of(content).len() as int);
}

/// Lines that the pattern does not match give no results.
proof fn lemma_hits_of_unmatched(path: Seq<char>, lines: Seq<LineView>, search: SearchView, n: int)
    requires
        forall|i: int|
            0 <= i < lines.len() ==> !(valid_utf8((#[trigger] lines[i]).content)
                && search.matches(decode_utf8(lines[i].content))),
    ensures
        crate::search::hits(path, lines, search, n).len() == 0,
    decreases n,
{
    if 0 < n <= lines.len() && n <= usize::MAX {
        lemma_hits_of_unmatched(path, lines, search, n - 1);
    }
}

/// Every candidate handed to the rewrite pass comes out of it, and the
/// statistics count each once.
pub proof fn lemma_every_candidate_is_counted(lines: Seq<LineView>, candidates: Seq<CandidateView>)
    ensures
        candidates_after(lines, candidates, lines.len() as int).len() == candidates.len(),
        successes(candidates_after(lines, candidates, lines.len() as int)) + failures(
            candidates_after(lines, candidates, lines.len() as int),
        ).len() == candidates.len(),
{
    lemma_statistics_complete(candidates_after(lines, candidates, lines.len() as int));
}

/// Every position in the index is the position of a candidate.
pub proof fn lemma_line_index_in_range(numbers: Seq<usize>, number: usize)
    requires
        numbers.len() <= usize::MAX,
    ensures
        line_index(numbers).contains_key(number) ==> line_index(numbers)[number] < numbers.len()
            && numbers[line_index(numbers)[number] as int] == number,
    decreases numbers.len(),
{
    if numbers.len() > 0 {
        let front = numbers.drop_last();
        lemma_line_index_in_range(front, number);
        if number != numbers.last() && line_index(numbers).contains_key(number) {
            assert(line_index(front).contains_key(number));
            assert(front[line_index(front)[number] as int] == numbers[line_index(
                front,
            )[number] as int]);
        }
    }
}

} // verus!
