//! Running a find-and-replace: over the lines of one text, and the parts of
//! a run over files that need no file.

use crate::engine::string_from_chars;
use crate::error::{Error, ErrorView};
use crate::replace::{applied, replacement_if_match, ReplaceResult, ReplaceResultView};
use crate::search::{candidate_views, CandidateView, SearchResultWithReplacement, SearchView};
use crate::text::{
    after_first_line, decimal, first_line, first_line_bounds, first_terminator, lemma_feed_at,
    lemma_text_parts, text_lines, to_chars, to_decimal,
};
use crate::utils::texts;
use crate::validation::{
    compiled, errors_text, fault_entries, faults, lemma_simple_handler_told, override_globs,
    validate_search_configuration, DirConfig, ParsedDirConfig, ParsedDirConfigView,
    ParsedSearchConfig, SearchConfiguration, SimpleErrorHandler, ValidationResult,
};
use vstd::prelude::*;
use vstd::string::*;

verus! {

/// Checks a configuration and hands back the ready one, or a failure whose
/// text reports every fault.
pub fn ready_configuration(
    search_config: SearchConfiguration<'_>,
    dir_config: Option<DirConfig<'_>>,
) -> (r: Result<(ParsedSearchConfig, Option<ParsedDirConfig>), Error>)
    ensures
        r is Ok <==> faults(search_config, dir_config).len() == 0,
        r matches Err(e) ==> e@ == ErrorView::Validation(
            errors_text(fault_entries(faults(search_config, dir_config))),
        ),
        r matches Ok(ready) ==> {
            &&& compiled(
                search_config.search_text@,
                search_config.fixed_strings,
                search_config.advanced_regex,
                search_config.match_whole_word,
                search_config.match_case,
            ) == Ok::<SearchView, ErrorView>(ready.0@.search)
            &&& ready.0@.replace == search_config.replacement_text@
            &&& ready.1 is Some <==> dir_config is Some
            &&& ready.1 matches Some(dir) ==> dir@ == (ParsedDirConfigView {
                overrides: override_globs(dir_config.unwrap()),
                root_dir: dir_config.unwrap().directory@,
                include_hidden: dir_config.unwrap().include_hidden,
            })
        },
{
    let mut handler = SimpleErrorHandler::new();
    let ghost fresh = handler;
    let checked = validate_search_configuration(search_config, dir_config, &mut handler);
    proof {
        lemma_simple_handler_told(fresh, faults(search_config, dir_config), handler);
        assert(texts(fresh.errors@) =~= Seq::<Seq<char>>::empty());
        assert(texts(handler.errors@) =~= fault_entries(faults(search_config, dir_config)));
        assert(texts(handler.errors@).len() == handler.errors@.len());
    }
    match checked {
        ValidationResult::Success(ready) => Ok(ready),
        ValidationResult::ValidationErrors(_) => {
            match handler.errors_str() {
                Some(text) => Err(Error::Validation(text)),
                None => Err(Error::Validation(String::new())),
            }
        },
    }
}

/// `text` with `search` replaced by `replace` in each of its lines, each
/// line followed by the terminator it has in `text`: a line feed, a carriage
/// return and a line feed, or nothing behind a last line that the text ends
/// without terminating.
pub open spec fn replaced_text(text: Seq<char>, search: SearchView, replace: Seq<char>) -> Seq<
    char,
>
    decreases text.len(),
    via replaced_text_decreases
{
    if text.len() == 0 {
        Seq::empty()
    } else {
        applied(first_line(text), search, replace) + first_terminator(text) + replaced_text(
            after_first_line(text),
            search,
            replace,
        )
    }
}

#[via_fn]
proof fn replaced_text_decreases(text: Seq<char>, search: SearchView, replace: Seq<char>) {
    lemma_feed_at(text);
}

/// The pattern matches one of the lines of `text`.
pub open spec fn matches_a_line(text: Seq<char>, search: SearchView) -> bool {
    exists|i: int| 0 <= i < text_lines(text).len() && search.matches(#[trigger] text_lines(text)[i])
}

/// A text in no line of which the pattern matches comes back as it is,
/// terminators and all.
pub proof fn lemma_text_without_match(text: Seq<char>, search: SearchView, replace: Seq<char>)
    requires
        !matches_a_line(text, search),
    ensures
        replaced_text(text, search, replace) == text,
    decreases text.len(),
{
    if text.len() > 0 {
        lemma_feed_at(text);
        lemma_text_parts(text);
        let rest = after_first_line(text);
        assert(text_lines(text)[0] == first_line(text));
        assert(!search.matches(first_line(text)));
        assert forall|i: int| 0 <= i < text_lines(rest).len() implies !search.matches(
            #[trigger] text_lines(rest)[i],
        ) by {
            assert(text_lines(text)[i + 1] == text_lines(rest)[i]);
        }
        lemma_text_without_match(rest, search, replace);
    }
}

/// A second pass changes nothing where the pattern matches no line of what
/// the first pass gave.
pub proof fn lemma_second_pass(text: Seq<char>, search: SearchView, replace: Seq<char>)
    requires
        !matches_a_line(replaced_text(text, search, replace), search),
    ensures
        replaced_text(replaced_text(text, search, replace), search, replace) == replaced_text(
            text,
            search,
            replace,
        ),
{
    lemma_text_without_match(replaced_text(text, search, replace), search, replace);
}

/// Finds and replaces in a text, line by line. Each line of the result is
/// followed by the terminator that the line has in `content`.
pub fn find_and_replace_text(content: &str, search_config: SearchConfiguration<'_>) -> (r: Result<
    String,
    Error,
>)
    ensures
        r is Ok <==> faults(search_config, None).len() == 0,
        r matches Err(e) ==> e@ == ErrorView::Validation(
            errors_text(fault_entries(faults(search_config, None))),
        ),
        r matches Ok(text) ==> compiled(
            search_config.search_text@,
            search_config.fixed_strings,
            search_config.advanced_regex,
            search_config.match_whole_word,
            search_config.match_case,
        ) matches Ok(search) && text@ == replaced_text(
            content@,
            search,
            search_config.replacement_text@,
        ),
{
    let ready = match ready_configuration(search_config, None) {
        Ok(ready) => ready.0,
        Err(e) => {
            return Err(e);
        },
    };
    let chars = to_chars(content);
    let mut out: Vec<char> = Vec::new();
    let mut start: usize = 0;
    proof {
        assert(chars@.skip(0) =~= chars@);
        assert(out@ + replaced_text(chars@, ready@.search, ready@.replace) =~= replaced_text(
            chars@,
            ready@.search,
            ready@.replace,
        ));
    }
    while start < chars.len()
        invariant
            start <= chars.len(),
            replaced_text(chars@, ready@.search, ready@.replace) == out@ + replaced_text(
                chars@.skip(start as int),
                ready@.search,
                ready@.replace,
            ),
        decreases chars.len() - start,
    {
        let ghost rest = chars@.skip(start as int);
        let ghost earlier = out@;
        let (end, next) = first_line_bounds(&chars, start);
        let mut line_chars: Vec<char> = Vec::new();
        let mut k: usize = start;
        while k < end
            invariant
                start <= k <= end <= chars.len(),
                line_chars@ == chars@.subrange(start as int, k as int),
            decreases end - k,
        {
            line_chars.push(chars[k]);
            k += 1;
            assert(line_chars@ =~= chars@.subrange(start as int, k as int));
        }
        let line = string_from_chars(&line_chars);
        match replacement_if_match(line.as_str(), &ready.search, ready.replace.as_str()) {
            Some(replaced) => {
                let replaced_chars = to_chars(replaced.as_str());
                out.extend_from_slice(replaced_chars.as_slice());
            },
            None => {
                out.extend_from_slice(line_chars.as_slice());
            },
        }
        assert(out@ == earlier + applied(first_line(rest), ready@.search, ready@.replace));
        let mut k: usize = end;
        while k < next
            invariant
                end <= k <= next <= chars.len(),
                out@ == earlier + applied(first_line(rest), ready@.search, ready@.replace)
                    + chars@.subrange(end as int, k as int),
            decreases next - k,
        {
            out.push(chars[k]);
            k += 1;
            assert(chars@.subrange(end as int, k as int) =~= chars@.subrange(
                end as int,
                k - 1,
            ).push(chars@[k - 1]));
        }
        proof {
            let first = applied(first_line(rest), ready@.search, ready@.replace);
            let tail = replaced_text(after_first_line(rest), ready@.search, ready@.replace);
            assert(earlier + (first + first_terminator(rest) + tail) =~= (earlier + first
                + first_terminator(rest)) + tail);
        }
        start = next;
    }
    proof {
        assert(chars@.skip(start as int) =~= Seq::<char>::empty());
        assert(out@ + Seq::<char>::empty() =~= out@);
    }
    Ok(string_from_chars(&out))
}

/// The reason that a candidate carries; empty where it carries none.
pub open spec fn reason_text(result: Option<ReplaceResultView>) -> Seq<char> {
    match result {
        Some(ReplaceResultView::Error(reason)) => reason,
        _ => Seq::empty(),
    }
}

/// The line that reports one failed candidate: path, line number, reason.
pub open spec fn failure_line(failed: CandidateView) -> Seq<char> {
    (match failed.search_result.path {
        Some(path) => path,
        None => Seq::empty(),
    }) + ":"@ + decimal(failed.search_result.line_number as nat) + ": "@ + reason_text(
        failed.replace_result,
    )
}

/// The lines that report the failed candidates, each behind a line feed.
pub open spec fn failure_lines(failed: Seq<CandidateView>) -> Seq<char>
    decreases failed.len(),
{
    if failed.len() == 0 {
        Seq::empty()
    } else {
        failure_lines(failed.drop_last()) + "\n"@ + failure_line(failed.last())
    }
}

/// The summary of a run over files: how many files were changed and, where
/// candidates failed, how many, with one line for each.
pub open spec fn summary_text(num_files_replaced: nat, failed: Seq<CandidateView>) -> Seq<char> {
    "Success: "@ + decimal(num_files_replaced) + " file"@ + (if num_files_replaced != 1 {
        "s"@
    } else {
        Seq::empty()
    }) + " updated"@ + (if failed.len() > 0 {
        "\nErrors: "@ + decimal(failed.len()) + failure_lines(failed)
    } else {
        Seq::empty()
    })
}

/// The summary of a run over files that changed `num_files_replaced` of them
/// and in which the candidates `failed` were not replaced.
pub fn run_summary(num_files_replaced: usize, failed: &Vec<SearchResultWithReplacement>) -> (text:
    String)
    ensures
        text@ == summary_text(num_files_replaced as nat, candidate_views(failed@)),
{
    let digits = to_decimal(num_files_replaced);
    let count = string_from_chars(&digits);
    let mut text = "Success: ".to_owned();
    text.append(count.as_str());
    text.append(" file");
    if num_files_replaced != 1 {
        text.append("s");
    }
    text.append(" updated");
    let ghost head = text@;
    if failed.len() > 0 {
        let digits = to_decimal(failed.len());
        let count = string_from_chars(&digits);
        text.append("\nErrors: ");
        text.append(count.as_str());
        let ghost all = candidate_views(failed@);
        let ghost intro = text@;
        let mut i: usize = 0;
        proof {
            assert(all.take(0) =~= Seq::<CandidateView>::empty());
            assert(intro + failure_lines(all.take(0)) =~= intro);
        }
        while i < failed.len()
            invariant
                i <= failed.len(),
                all == candidate_views(failed@),
                text@ == intro + failure_lines(all.take(i as int)),
            decreases failed.len() - i,
        {
            let ghost earlier = text@;
            let entry = &failed[i];
            proof {
                assert(all[i as int] == entry@);
                assert(all.take(i + 1).drop_last() =~= all.take(i as int));
                assert(all.take(i + 1).last() == entry@);
            }
            text.append("\n");
            match &entry.search_result.path {
                Some(path) => {
                    text.append(path.as_str());
                },
                None => {},
            }
            text.append(":");
            let digits = to_decimal(entry.search_result.line_number);
            let number = string_from_chars(&digits);
            text.append(number.as_str());
            text.append(": ");
            match &entry.replace_result {
                Some(ReplaceResult::Error(reason)) => {
                    text.append(reason.as_str());
                },
                _ => {},
            }
            proof {
                assert(text@ =~= earlier + "\n"@ + failure_line(entry@));
                assert(text@ =~= intro + failure_lines(all.take(i + 1)));
            }
            i += 1;
        }
        proof {
            assert(all.take(i as int) =~= all);
            assert(text@ =~= summary_text(num_files_replaced as nat, all));
        }
    } else {
        assert(text@ =~= summary_text(num_files_replaced as nat, candidate_views(failed@)));
    }
    text
}

/// A file that could not be rewritten as a whole.
#[derive(Clone, Debug, PartialEq, Eq)]
pub struct FileFailure {
    pub path: String,
    pub reason: String,
}

/// A failed file as a value.
pub struct FileFailureView {
    pub path: Seq<char>,
    pub reason: Seq<char>,
}

impl View for FileFailure {
    type V = FileFailureView;

    open spec fn view(&self) -> FileFailureView {
        FileFailureView { path: self.path@, reason: self.reason@ }
    }
}

/// The failed files of a list as values.
pub open spec fn file_failure_views(files: Seq<FileFailure>) -> Seq<FileFailureView> {
    files.map_values(|f: FileFailure| f@)
}

/// The lines that report the failed files, each behind a line feed: path,
/// then reason.
pub open spec fn file_failure_lines(files: Seq<FileFailureView>) -> Seq<char>
    decreases files.len(),
{
    if files.len() == 0 {
        Seq::empty()
    } else {
        file_failure_lines(files.drop_last()) + "\n"@ + files.last().path + ": "@
            + files.last().reason
    }
}

/// The report of a run over files: the summary of what was replaced and what
/// was not and, where files could not be rewritten at all, how many, with
/// one line for each.
pub open spec fn report_text(
    num_files_replaced: nat,
    failed: Seq<CandidateView>,
    files: Seq<FileFailureView>,
) -> Seq<char> {
    summary_text(num_files_replaced, failed) + (if files.len() > 0 {
        "\nFiles not rewritten: "@ + decimal(files.len()) + file_failure_lines(files)
    } else {
        Seq::empty()
    })
}

/// The report of a run over files that changed `num_files_replaced` of them,
/// in which the candidates `failed` were not replaced and the files `files`
/// could not be rewritten.
pub fn run_report(
    num_files_replaced: usize,
    failed: &Vec<SearchResultWithReplacement>,
    files: &Vec<FileFailure>,
) -> (text: String)
    ensures
        text@ == report_text(
            num_files_replaced as nat,
            candidate_views(failed@),
            file_failure_views(files@),
        ),
{
    let mut text = run_summary(num_files_replaced, failed);
    let ghost summary = text@;
    if files.len() > 0 {
        let digits = to_decimal(files.len());
        let count = string_from_chars(&digits);
        text.append("\nFiles not rewritten: ");
        text.append(count.as_str());
        let ghost all = file_failure_views(files@);
        let ghost intro = text@;
        let mut i: usize = 0;
        proof {
            assert(all.take(0) =~= Seq::<FileFailureView>::empty());
            assert(intro + file_failure_lines(all.take(0)) =~= intro);
        }
        while i < files.len()
            invariant
                i <= files.len(),
                all == file_failure_views(files@),
                text@ == intro + file_failure_lines(all.take(i as int)),
            decreases files.len() - i,
        {
            let ghost earlier = text@;
            let entry = &files[i];
            proof {
                assert(all[i as int] == entry@);
                assert(all.take(i + 1).drop_last() =~= all.take(i as int));
                assert(all.take(i + 1).last() == entry@);
            }
            text.append("\n");
            text.append(entry.path.as_str());
            text.append(": ");
            text.append(entry.reason.as_str());
            proof {
                assert(text@ =~= intro + file_failure_lines(all.take(i + 1)));
            }
            i += 1;
        }
        proof {
            assert(all.take(i as int) =~= all);
            assert(text@ =~= report_text(
                num_files_replaced as nat,
                candidate_views(failed@),
                all,
            ));
        }
    } else {
        assert(text@ =~= report_text(
            num_files_replaced as nat,
            candidate_views(failed@),
            file_failure_views(files@),
        ));
    }
    text
}

} // verus!
