//! Patterns, the test whether a pattern matches a text, and the scanning pass
//! that finds the lines of a file that a pattern matches.

use crate::engine::{
    decode_text, fancy_error, fancy_is_match, fancy_matches, regex_error, regex_is_match,
    regex_matches,
};
use crate::line_reader::{line_views, lines_of, read_lines, Line, LineEnding, LineView};
use crate::replace::{ReplaceResult, ReplaceResultView, outcome_of};
use crate::text::{contains, occurs_in, to_chars};
use vstd::prelude::*;
use vstd::utf8::*;

verus! {

/// What to search for. Whole-word and case-insensitive matching are part of
/// the pattern text by the time a value of this type is built.
#[derive(Clone, Debug, PartialEq, Eq)]
pub enum SearchType {
    /// A literal text, matched verbatim.
    Fixed(String),
    /// The source of a regular expression for the linear-time engine.
    Pattern(String),
    /// The source of a regular expression for the backtracking engine, which
    /// knows lookahead and lookbehind.
    PatternAdvanced(String),
}

/// A pattern as a value.
pub enum SearchView {
    Fixed(Seq<char>),
    Pattern(Seq<char>),
    PatternAdvanced(Seq<char>),
}

/// The outcome of testing a pattern on a text.
#[derive(Clone, Copy, Debug, PartialEq, Eq, Structural)]
pub enum MatchTest {
    /// The pattern occurs in the text.
    Match,
    /// The pattern does not occur in the text.
    NoMatch,
    /// The backtracking engine could not decide: the pattern does not
    /// compile, or the search was given up at run time.
    EngineFailure,
}

impl View for SearchType {
    type V = SearchView;

    open spec fn view(&self) -> SearchView {
        match self {
            SearchType::Fixed(text) => SearchView::Fixed(text@),
            SearchType::Pattern(source) => SearchView::Pattern(source@),
            SearchType::PatternAdvanced(source) => SearchView::PatternAdvanced(source@),
        }
    }
}

impl SearchView {
    /// The text the pattern was made from.
    pub open spec fn source(self) -> Seq<char> {
        match self {
            SearchView::Fixed(text) => text,
            SearchView::Pattern(source) => source,
            SearchView::PatternAdvanced(source) => source,
        }
    }

    /// An empty pattern: by policy it is never replaced.
    pub open spec fn is_empty(self) -> bool {
        self.source().len() == 0
    }

    /// The outcome of testing the pattern on `text`.
    pub open spec fn test(self, text: Seq<char>) -> MatchTest {
        match self {
            SearchView::Fixed(needle) => if occurs_in(text, needle) {
                MatchTest::Match
            } else {
                MatchTest::NoMatch
            },
            SearchView::Pattern(source) => if regex_error(source) is None && regex_is_match(
                source,
                text,
            ) {
                MatchTest::Match
            } else {
                MatchTest::NoMatch
            },
            SearchView::PatternAdvanced(source) => if fancy_error(source) is Some {
                MatchTest::EngineFailure
            } else {
                match fancy_is_match(source, text) {
                    Some(true) => MatchTest::Match,
                    Some(false) => MatchTest::NoMatch,
                    None => MatchTest::EngineFailure,
                }
            },
        }
    }

    /// The pattern occurs in `text`. A test that the engine could not decide
    /// counts as no match.
    pub open spec fn matches(self, text: Seq<char>) -> bool {
        self.test(text) == MatchTest::Match
    }
}

impl SearchType {
    /// Whether the pattern was made from an empty text.
    pub fn is_empty(&self) -> (empty: bool)
        ensures
            empty == self@.is_empty(),
    {
        match self {
            SearchType::Fixed(text) => text.as_str().is_empty(),
            SearchType::Pattern(source) => source.as_str().is_empty(),
            SearchType::PatternAdvanced(source) => source.as_str().is_empty(),
        }
    }
}

/// Tests `search` on `line`, telling a failure of the engine from a line
/// without a match.
pub fn test_search(line: &str, search: &SearchType) -> (outcome: MatchTest)
    ensures
        outcome == search@.test(line@),
{
    match search {
        SearchType::Fixed(needle) => {
            let text = to_chars(line);
            let needle = to_chars(needle.as_str());
            if contains(&text, &needle) {
                MatchTest::Match
            } else {
                MatchTest::NoMatch
            }
        },
        SearchType::Pattern(source) => {
            if regex_matches(source.as_str(), line) {
                MatchTest::Match
            } else {
                MatchTest::NoMatch
            }
        },
        SearchType::PatternAdvanced(source) => {
            match fancy_matches(source.as_str(), line) {
                Some(true) => MatchTest::Match,
                Some(false) => MatchTest::NoMatch,
                None => MatchTest::EngineFailure,
            }
        },
    }
}

/// Whether `search` occurs in `line`.
pub fn contains_search(line: &str, search: &SearchType) -> (found: bool)
    ensures
        found == search@.matches(line@),
{
    match test_search(line, search) {
        MatchTest::Match => true,
        MatchTest::NoMatch => false,
        MatchTest::EngineFailure => false,
    }
}

/// A line of a file, or of a string, that the pattern matches.
#[derive(Clone, Debug, PartialEq, Eq)]
pub struct SearchResult {
    /// The file the line was read from; absent for a search in a string.
    pub path: Option<String>,
    /// The number of the line in its file, counted from 1.
    pub line_number: usize,
    /// The line as it was read, without its terminator.
    pub line: String,
    /// The terminator the line was read with.
    pub line_ending: LineEnding,
    /// Whether the line is to be replaced.
    pub included: bool,
}

/// A search result as a value.
pub struct SearchResultView {
    pub path: Option<Seq<char>>,
    pub line_number: usize,
    pub line: Seq<char>,
    pub line_ending: LineEnding,
    pub included: bool,
}

/// An optional string as a value.
pub open spec fn text_of(s: Option<String>) -> Option<Seq<char>> {
    match s {
        Some(text) => Some(text@),
        None => None,
    }
}

impl View for SearchResult {
    type V = SearchResultView;

    open spec fn view(&self) -> SearchResultView {
        SearchResultView {
            path: text_of(self.path),
            line_number: self.line_number,
            line: self.line@,
            line_ending: self.line_ending,
            included: self.included,
        }
    }
}

/// A search result with the text that is to stand in place of its line, and,
/// once the rewrite pass has met the line, with what came of it.
#[derive(Clone, Debug, PartialEq, Eq)]
pub struct SearchResultWithReplacement {
    pub search_result: SearchResult,
    /// The whole line after replacement; empty where the line is deleted.
    pub replacement: String,
    /// `None` until the rewrite pass meets the line.
    pub replace_result: Option<ReplaceResult>,
}

/// A search result with its replacement as a value.
pub struct CandidateView {
    pub search_result: SearchResultView,
    pub replacement: Seq<char>,
    pub replace_result: Option<ReplaceResultView>,
}

impl View for SearchResultWithReplacement {
    type V = CandidateView;

    open spec fn view(&self) -> CandidateView {
        CandidateView {
            search_result: self.search_result@,
            replacement: self.replacement@,
            replace_result: outcome_of(self.replace_result),
        }
    }
}

/// The candidates of a list as values.
pub open spec fn candidate_views(results: Seq<SearchResultWithReplacement>) -> Seq<
    CandidateView,
> {
    results.map_values(|r: SearchResultWithReplacement| r@)
}

/// The search results of a list as values.
pub open spec fn result_views(results: Seq<SearchResult>) -> Seq<SearchResultView> {
    results.map_values(|r: SearchResult| r@)
}

/// The result that line `line_number` gives: a line that is text and that the
/// pattern matches is a result; any other line is none.
pub open spec fn hit(
    path: Seq<char>,
    line_number: usize,
    line: LineView,
    search: SearchView,
) -> Option<SearchResultView> {
    if valid_utf8(line.content) && search.matches(decode_utf8(line.content)) {
        Some(
            SearchResultView {
                path: Some(path),
                line_number,
                line: decode_utf8(line.content),
                line_ending: line.ending,
                included: true,
            },
        )
    } else {
        None
    }
}

/// The results that the first `n` of `lines` give, in order.
pub open spec fn hits(path: Seq<char>, lines: Seq<LineView>, search: SearchView, n: int) -> Seq<
    SearchResultView,
>
    decreases n,
{
    if n <= 0 || n > lines.len() || n > usize::MAX {
        Seq::empty()
    } else {
        match hit(path, n as usize, lines[n - 1], search) {
            Some(found) => hits(path, lines, search, n - 1).push(found),
            None => hits(path, lines, search, n - 1),
        }
    }
}

/// The results of scanning `content`: none for an empty pattern, else one for
/// each line that is text and that the pattern matches.
pub open spec fn scan(path: Seq<char>, content: Seq<u8>, search: SearchView) -> Seq<
    SearchResultView,
> {
    if search.is_empty() {
        Seq::empty()
    } else {
        hits(path, lines_of(content), search, lines_of(content).len() as int)
    }
}

/// Tests one line of a file: a result where the line is text and the pattern
/// matches it.
pub fn search_line(path: &str, line_number: usize, line: Line, search: &SearchType) -> (found:
    Option<SearchResult>)
    ensures
        found is Some <==> hit(path@, line_number, line@, search@) is Some,
        found matches Some(result) ==> Some(result@) == hit(path@, line_number, line@, search@),
{
    let Line { content, ending } = line;
    match decode_text(content) {
        Some(text) => {
            if contains_search(text.as_str(), search) {
                Some(
                    SearchResult {
                        path: Some(path.to_owned()),
                        line_number,
                        line: text,
                        line_ending: ending,
                        included: true,
                    },
                )
            } else {
                None
            }
        },
        None => None,
    }
}

/// The scanning pass over the content of one file: the lines that `search`
/// matches, in order, each with its number and its terminator.
pub fn search_file(path: &str, content: &[u8], search: &SearchType) -> (results: Vec<SearchResult>)
    ensures
        result_views(results@) == scan(path@, content@, search@),
{
    let mut results: Vec<SearchResult> = Vec::new();
    if search.is_empty() {
        assert(result_views(results@) =~= Seq::<SearchResultView>::empty());
        return results;
    }
    let lines = read_lines(content);
    let ghost all = line_views(lines@);
    assert(all.len() == lines.len());
    assert(result_views(results@) =~= hits(path@, all, search@, 0));
    let mut number: usize = 0;
    for line in it: lines
        invariant
            all == lines_of(content@),
            all == line_views(it.seq()),
            all.len() <= usize::MAX,
            number == it.index(),
            result_views(results@) == hits(path@, all, search@, number as int),
    {
        assert(line@ == all[number as int]);
        let ghost before = result_views(results@);
        number += 1;
        match search_line(path, number, line, search) {
            Some(found) => {
                results.push(found);
                assert(result_views(results@) =~= before.push(found@));
            },
            None => {},
        }
    }
    results
}

} // verus!
