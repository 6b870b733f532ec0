//! Turning a raw configuration into one that is ready to run, or into the
//! list of everything that is wrong with it.

use crate::engine::{
    escaped, fancy_compile_error, fancy_error, regex_compile_error, regex_error, regex_escape,
};
use crate::error::{Error, ErrorView};
use crate::search::{SearchType, SearchView};
use crate::text::lines_joined;
use crate::utils::{add_overrides, globs_of, refusal, texts};
use vstd::prelude::*;
use vstd::string::*;

verus! {

/// What to search for and what to put in its place, as the user gave it.
#[derive(Clone, Debug, PartialEq, Eq)]
pub struct SearchConfiguration<'a> {
    pub search_text: &'a str,
    pub replacement_text: &'a str,
    /// The search text is a literal, not a regular expression.
    pub fixed_strings: bool,
    /// The search text is for the backtracking engine.
    pub advanced_regex: bool,
    /// A match counts only where no word character stands beside it.
    pub match_whole_word: bool,
    /// Upper and lower case are told apart.
    pub match_case: bool,
}

/// Where to search, as the user gave it.
#[derive(Clone, Debug, PartialEq, Eq)]
pub struct DirConfig<'a> {
    /// Comma-separated globs that a path must match.
    pub include_globs: Option<&'a str>,
    /// Comma-separated globs that a path must not match.
    pub exclude_globs: Option<&'a str>,
    pub include_hidden: bool,
    pub directory: String,
}

/// A search configuration that is ready to run.
#[derive(Clone, Debug, PartialEq, Eq)]
pub struct ParsedSearchConfig {
    pub search: SearchType,
    pub replace: String,
}

/// A directory configuration that is ready to run.
#[derive(Clone, Debug, PartialEq, Eq)]
pub struct ParsedDirConfig {
    /// The override globs, each accepted by the glob parser: those a path
    /// must match, then, with `!` in front, those it must not match.
    pub overrides: Vec<String>,
    pub root_dir: String,
    pub include_hidden: bool,
}

/// A ready search configuration as a value.
pub struct ParsedSearchConfigView {
    pub search: SearchView,
    pub replace: Seq<char>,
}

/// A ready directory configuration as a value.
pub struct ParsedDirConfigView {
    pub overrides: Seq<Seq<char>>,
    pub root_dir: Seq<char>,
    pub include_hidden: bool,
}

impl View for ParsedSearchConfig {
    type V = ParsedSearchConfigView;

    open spec fn view(&self) -> ParsedSearchConfigView {
        ParsedSearchConfigView { search: self.search@, replace: self.replace@ }
    }
}

impl View for ParsedDirConfig {
    type V = ParsedDirConfigView;

    open spec fn view(&self) -> ParsedDirConfigView {
        ParsedDirConfigView {
            overrides: texts(self.overrides@),
            root_dir: self.root_dir@,
            include_hidden: self.include_hidden,
        }
    }
}

/// The part of the configuration that a fault lies in.
#[derive(Clone, Copy, Debug, PartialEq, Eq, Structural)]
pub enum ErrorCategory {
    SearchText,
    IncludeFiles,
    ExcludeFiles,
}

/// One fault of a configuration.
#[derive(Clone, Debug, PartialEq, Eq)]
pub struct ValidationError {
    pub category: ErrorCategory,
    /// What went wrong, in short.
    pub error: String,
    /// What the parser said.
    pub detail: String,
}

/// A fault as a value.
pub struct ValidationErrorView {
    pub category: ErrorCategory,
    pub error: Seq<char>,
    pub detail: Seq<char>,
}

impl View for ValidationError {
    type V = ValidationErrorView;

    open spec fn view(&self) -> ValidationErrorView {
        ValidationErrorView { category: self.category, error: self.error@, detail: self.detail@ }
    }
}

/// The faults of a list as values.
pub open spec fn fault_views(errors: Seq<ValidationError>) -> Seq<ValidationErrorView> {
    errors.map_values(|e: ValidationError| e@)
}

/// The outcome of a validation: the ready configuration, or every fault that
/// was found.
#[derive(Clone, Debug, PartialEq, Eq)]
pub enum ValidationResult<T> {
    Success(T),
    ValidationErrors(Vec<ValidationError>),
}

/// Receives the faults of a configuration, one call for each, as they are
/// found.
pub trait ValidationErrorHandler: Sized {
    /// `self` is what `before` has become by being told of `fault`. A handler
    /// that keeps no account of what it is told leaves this as it stands.
    open spec fn told(&self, before: &Self, fault: ValidationErrorView) -> bool {
        true
    }

    fn handle_search_text_error(&mut self, error: &str, detail: &str)
        ensures
            final(self).told(
                old(self),
                (ValidationErrorView {
                    category: ErrorCategory::SearchText,
                    error: error@,
                    detail: detail@,
                }),
            ),
    ;

    fn handle_include_files_error(&mut self, error: &str, detail: &str)
        ensures
            final(self).told(
                old(self),
                (ValidationErrorView {
                    category: ErrorCategory::IncludeFiles,
                    error: error@,
                    detail: detail@,
                }),
            ),
    ;

    fn handle_exclude_files_error(&mut self, error: &str, detail: &str)
        ensures
            final(self).told(
                old(self),
                (ValidationErrorView {
                    category: ErrorCategory::ExcludeFiles,
                    error: error@,
                    detail: detail@,
                }),
            ),
    ;
}

/// `after` is what `before` has become by being told of `faults`, one after
/// the other, and of nothing else.
pub open spec fn told_all<H: ValidationErrorHandler>(
    before: H,
    faults: Seq<ValidationErrorView>,
    after: H,
) -> bool
    decreases faults.len(),
{
    if faults.len() == 0 {
        after == before
    } else {
        exists|mid: H|
            told_all(before, faults.drop_last(), mid) && #[trigger] after.told(&mid, faults.last())
    }
}

/// A handler that is told of one more fault has been told of all of them.
pub proof fn lemma_told_next<H: ValidationErrorHandler>(
    before: H,
    faults: Seq<ValidationErrorView>,
    mid: H,
    fault: ValidationErrorView,
    after: H,
)
    requires
        told_all(before, faults, mid),
        after.told(&mid, fault),
    ensures
        told_all(before, faults.push(fault), after),
{
    assert(faults.push(fault).drop_last() =~= faults);
    assert(faults.push(fault).last() == fault);
}

/// Being told of one list and then of another is being told of the two, one
/// after the other.
pub proof fn lemma_told_both<H: ValidationErrorHandler>(
    before: H,
    first: Seq<ValidationErrorView>,
    mid: H,
    second: Seq<ValidationErrorView>,
    after: H,
)
    requires
        told_all(before, first, mid),
        told_all(mid, second, after),
    ensures
        told_all(before, first + second, after),
    decreases second.len(),
{
    if second.len() == 0 {
        assert(first + second =~= first);
    } else {
        let last_but_one = choose|m: H|
            told_all(mid, second.drop_last(), m) && #[trigger] after.told(&m, second.last());
        lemma_told_both(before, first, mid, second.drop_last(), last_but_one);
        assert((first + second).drop_last() =~= first + second.drop_last());
        assert((first + second).last() == second.last());
    }
}

/// The lines that a list of faults is collected as.
pub open spec fn fault_entries(found: Seq<ValidationErrorView>) -> Seq<Seq<char>> {
    Seq::new(
        found.len(),
        |i: int| entry_text(category_title(found[i].category), found[i].detail),
    )
}

/// What the simple handler holds once it has been told of a list of faults:
/// what it held, and one line for each fault, in order.
pub proof fn lemma_simple_handler_told(
    before: SimpleErrorHandler,
    faults: Seq<ValidationErrorView>,
    after: SimpleErrorHandler,
)
    requires
        told_all(before, faults, after),
    ensures
        texts(after.errors@) == texts(before.errors@) + fault_entries(faults),
    decreases faults.len(),
{
    if faults.len() == 0 {
        assert(texts(before.errors@) + fault_entries(faults) =~= texts(before.errors@));
    } else {
        let mid = choose|m: SimpleErrorHandler|
            told_all(before, faults.drop_last(), m) && #[trigger] after.told(&m, faults.last());
        lemma_simple_handler_told(before, faults.drop_last(), mid);
        assert(texts(after.errors@) =~= texts(before.errors@) + fault_entries(faults));
    }
}

/// Collects the faults as lines of text.
pub struct SimpleErrorHandler {
    pub errors: Vec<String>,
}

/// The text that one fault is listed as.
pub open spec fn entry_text(title: Seq<char>, detail: Seq<char>) -> Seq<char> {
    "\n"@ + title + ":\n"@ + detail
}

/// The title that the faults of a category are listed under.
pub open spec fn category_title(category: ErrorCategory) -> Seq<char> {
    match category {
        ErrorCategory::SearchText => "Failed to parse search text"@,
        ErrorCategory::IncludeFiles => "Failed to parse include globs"@,
        ErrorCategory::ExcludeFiles => "Failed to parse exclude globs"@,
    }
}

/// The text that a list of collected faults is reported as.
pub open spec fn errors_text(errors: Seq<Seq<char>>) -> Seq<char> {
    "Validation errors:\n"@ + lines_joined(errors)
}

impl SimpleErrorHandler {
    /// A handler that has collected nothing.
    pub fn new() -> (handler: Self)
        ensures
            handler.errors@.len() == 0,
    {
        Self { errors: Vec::new() }
    }

    /// The report of what was collected; `None` where nothing was.
    pub fn errors_str(&self) -> (report: Option<String>)
        ensures
            report is Some <==> self.errors@.len() > 0,
            report matches Some(text) ==> text@ == errors_text(texts(self.errors@)),
    {
        if self.errors.len() == 0 {
            return None;
        }
        let ghost all = texts(self.errors@);
        let mut body = self.errors[0].clone();
        let mut i: usize = 1;
        proof {
            assert(all.take(1) =~= seq![all[0]]);
        }
        while i < self.errors.len()
            invariant
                1 <= i <= self.errors.len(),
                all == texts(self.errors@),
                body@ == lines_joined(all.take(i as int)),
            decreases self.errors.len() - i,
        {
            proof {
                assert(all.take(i + 1).drop_last() =~= all.take(i as int));
                assert(all.take(i + 1).last() == self.errors@[i as int]@);
            }
            body.append("\n");
            body.append(self.errors[i].as_str());
            i += 1;
        }
        proof {
            assert(all.take(i as int) =~= all);
        }
        let mut report = "Validation errors:\n".to_owned();
        report.append(body.as_str());
        Some(report)
    }

    /// Collects one fault under `title`.
    pub fn push_error(&mut self, title: &str, detail: &str)
        ensures
            texts(final(self).errors@) == texts(old(self).errors@).push(
                entry_text(title@, detail@),
            ),
    {
        let mut entry = "\n".to_owned();
        entry.append(title);
        entry.append(":\n");
        entry.append(detail);
        let ghost earlier = texts(self.errors@);
        self.errors.push(entry);
        assert(texts(self.errors@) =~= earlier.push(entry@));
    }
}

impl Default for SimpleErrorHandler {
    fn default() -> (handler: Self)
        ensures
            handler.errors@.len() == 0,
    {
        Self::new()
    }
}

impl ValidationErrorHandler for SimpleErrorHandler {
    open spec fn told(&self, before: &Self, fault: ValidationErrorView) -> bool {
        texts(self.errors@) == texts(before.errors@).push(
            entry_text(category_title(fault.category), fault.detail),
        )
    }

    fn handle_search_text_error(&mut self, _error: &str, detail: &str) {
        self.push_error("Failed to parse search text", detail);
    }

    fn handle_include_files_error(&mut self, _error: &str, detail: &str) {
        self.push_error("Failed to parse include globs", detail);
    }

    fn handle_exclude_files_error(&mut self, _error: &str, detail: &str) {
        self.push_error("Failed to parse exclude globs", detail);
    }
}

/// What parsing a search text gives: a literal as it stands, an empty text
/// as an empty pattern, a regular expression where its engine accepts it,
/// else that engine's error.
pub open spec fn parsed(text: Seq<char>, fixed_strings: bool, advanced_regex: bool) -> Result<
    SearchView,
    ErrorView,
> {
    if fixed_strings {
        Ok(SearchView::Fixed(text))
    } else if advanced_regex {
        match fancy_error(text) {
            Some(message) if text.len() > 0 => Err(ErrorView::AdvancedRegex(message)),
            _ => Ok(SearchView::PatternAdvanced(text)),
        }
    } else {
        match regex_error(text) {
            Some(message) if text.len() > 0 => Err(ErrorView::Regex(message)),
            _ => Ok(SearchView::Pattern(text)),
        }
    }
}

/// Parses a search text into a pattern.
pub fn parse_search_text_inner(search_text: &str, fixed_strings: bool, advanced_regex: bool) -> (r:
    Result<SearchType, Error>)
    ensures
        r matches Ok(search) ==> parsed(search_text@, fixed_strings, advanced_regex) == Ok::<
            SearchView,
            ErrorView,
        >(search@),
        r matches Err(e) ==> parsed(search_text@, fixed_strings, advanced_regex) == Err::<
            SearchView,
            ErrorView,
        >(e@),
{
    if fixed_strings {
        Ok(SearchType::Fixed(search_text.to_owned()))
    } else if search_text.is_empty() {
        if advanced_regex {
            Ok(SearchType::PatternAdvanced(search_text.to_owned()))
        } else {
            Ok(SearchType::Pattern(search_text.to_owned()))
        }
    } else if advanced_regex {
        match fancy_compile_error(search_text) {
            None => Ok(SearchType::PatternAdvanced(search_text.to_owned())),
            Some(message) => Err(Error::AdvancedRegex(message)),
        }
    } else {
        match regex_compile_error(search_text) {
            None => Ok(SearchType::Pattern(search_text.to_owned())),
            Some(message) => Err(Error::Regex(message)),
        }
    }
}

/// The source of the regular expression that stands for `search` under the
/// two flags: a literal is escaped; for whole words the source is put between
/// two assertions that no word character stands beside the match; for
/// matching without regard to case the flag `i` is put in front.
pub open spec fn flagged_source(search: SearchView, whole_word: bool, match_case: bool) -> Seq<
    char,
> {
    let base = match search {
        SearchView::Fixed(text) => escaped(text),
        SearchView::Pattern(source) => source,
        SearchView::PatternAdvanced(source) => source,
    };
    let bounded = if whole_word {
        "(?<![a-zA-Z0-9_])"@ + base + "(?![a-zA-Z0-9_])"@
    } else {
        base
    };
    if match_case {
        bounded
    } else {
        "(?i)"@ + bounded
    }
}

/// The pattern that stands for `search` under the two flags. A pattern that
/// needs neither flag stays as it is, and so does an empty pattern, which
/// matches nothing whatever the flags. Any other becomes a pattern for the
/// backtracking engine, where that engine accepts its source.
pub open spec fn flagged(search: SearchView, whole_word: bool, match_case: bool) -> Result<
    SearchView,
    ErrorView,
> {
    if (!whole_word && match_case) || search.is_empty() {
        Ok(search)
    } else {
        match fancy_error(flagged_source(search, whole_word, match_case)) {
            None => Ok(SearchView::PatternAdvanced(flagged_source(search, whole_word, match_case))),
            Some(message) => Err(ErrorView::AdvancedRegex(message)),
        }
    }
}

/// Builds whole-word and case-insensitive matching into a pattern.
pub fn with_flags(search: SearchType, whole_word: bool, match_case: bool) -> (r: Result<
    SearchType,
    Error,
>)
    ensures
        r matches Ok(pattern) ==> flagged(search@, whole_word, match_case) == Ok::<
            SearchView,
            ErrorView,
        >(pattern@),
        r matches Err(e) ==> flagged(search@, whole_word, match_case) == Err::<
            SearchView,
            ErrorView,
        >(e@),
{
    if (!whole_word && match_case) || search.is_empty() {
        return Ok(search);
    }
    let base = match &search {
        SearchType::Fixed(text) => regex_escape(text.as_str()),
        SearchType::Pattern(source) => source.clone(),
        SearchType::PatternAdvanced(source) => source.clone(),
    };
    let bounded = if whole_word {
        let mut bounded = "(?<![a-zA-Z0-9_])".to_owned();
        bounded.append(base.as_str());
        bounded.append("(?![a-zA-Z0-9_])");
        bounded
    } else {
        base
    };
    let source = if match_case {
        bounded
    } else {
        let mut source = "(?i)".to_owned();
        source.append(bounded.as_str());
        source
    };
    match fancy_compile_error(source.as_str()) {
        None => Ok(SearchType::PatternAdvanced(source)),
        Some(message) => Err(Error::AdvancedRegex(message)),
    }
}

/// The pattern that a search text and its flags compile to, or the error of
/// the engine that refuses it.
pub open spec fn compiled(
    text: Seq<char>,
    fixed_strings: bool,
    advanced_regex: bool,
    whole_word: bool,
    match_case: bool,
) -> Result<SearchView, ErrorView> {
    match parsed(text, fixed_strings, advanced_regex) {
        Ok(search) => flagged(search, whole_word, match_case),
        Err(e) => Err(e),
    }
}

/// Compiles a search text and its flags into a pattern. A literal always
/// compiles. An empty search text compiles, to a pattern that is replaced
/// nowhere.
pub fn compile_search(
    search_text: &str,
    fixed_strings: bool,
    advanced_regex: bool,
    whole_word: bool,
    match_case: bool,
) -> (r: Result<SearchType, Error>)
    ensures
        r matches Ok(pattern) ==> compiled(
            search_text@,
            fixed_strings,
            advanced_regex,
            whole_word,
            match_case,
        ) == Ok::<SearchView, ErrorView>(pattern@),
        r matches Err(e) ==> compiled(
            search_text@,
            fixed_strings,
            advanced_regex,
            whole_word,
            match_case,
        ) == Err::<SearchView, ErrorView>(e@),
        search_text@.len() == 0 ==> r is Ok && r.unwrap()@.is_empty(),
        r matches Err(e) ==> e@ is Regex || e@ is AdvancedRegex,
{
    match parse_search_text_inner(search_text, fixed_strings, advanced_regex) {
        Ok(search) => with_flags(search, whole_word, match_case),
        Err(e) => Err(e),
    }
}

/// The fault that a search configuration has, if any.
pub open spec fn search_fault(config: SearchConfiguration) -> Option<ValidationErrorView> {
    match compiled(
        config.search_text@,
        config.fixed_strings,
        config.advanced_regex,
        config.match_whole_word,
        config.match_case,
    ) {
        Ok(_) => None,
        Err(e) => Some(
            ValidationErrorView {
                category: ErrorCategory::SearchText,
                error: "Couldn't parse regex"@,
                detail: e.message(),
            },
        ),
    }
}

/// The fault that a list of globs has, if any: the error of the first glob
/// that is refused.
pub open spec fn globs_fault(
    globs: Option<&str>,
    prefix: Seq<char>,
    category: ErrorCategory,
) -> Option<ValidationErrorView> {
    match globs {
        Some(list) => match refusal(globs_of(list@, prefix)) {
            Some(message) => Some(
                ValidationErrorView {
                    category,
                    error: "Couldn't parse glob pattern"@,
                    detail: message,
                },
            ),
            None => None,
        },
        None => None,
    }
}

/// The globs of an optional list.
pub open spec fn optional_globs(globs: Option<&str>, prefix: Seq<char>) -> Seq<Seq<char>> {
    match globs {
        Some(list) => globs_of(list@, prefix),
        None => Seq::empty(),
    }
}

/// No fault, or one.
pub open spec fn listed(fault: Option<ValidationErrorView>) -> Seq<ValidationErrorView> {
    match fault {
        Some(found) => seq![found],
        None => Seq::empty(),
    }
}

/// The faults of the globs of a directory configuration: that of the globs
/// to match, then that of the globs not to match.
pub open spec fn dir_faults(dir: DirConfig) -> Seq<ValidationErrorView> {
    listed(globs_fault(dir.include_globs, ""@, ErrorCategory::IncludeFiles)) + listed(
        globs_fault(dir.exclude_globs, "!"@, ErrorCategory::ExcludeFiles),
    )
}

/// Every fault of a configuration: that of the search text, then those of
/// the globs.
pub open spec fn faults(config: SearchConfiguration, dir: Option<DirConfig>) -> Seq<
    ValidationErrorView,
> {
    listed(search_fault(config)) + match dir {
        Some(d) => dir_faults(d),
        None => Seq::empty(),
    }
}

/// The override globs of a directory configuration.
pub open spec fn override_globs(dir: DirConfig) -> Seq<Seq<char>> {
    optional_globs(dir.include_globs, ""@) + optional_globs(dir.exclude_globs, "!"@)
}

/// The fault that parsing a search text finds, if any.
pub open spec fn parse_faults(text: Seq<char>, fixed_strings: bool, advanced_regex: bool) -> Seq<
    ValidationErrorView,
> {
    match parsed(text, fixed_strings, advanced_regex) {
        Ok(_) => Seq::empty(),
        Err(e) => seq![
            ValidationErrorView {
                category: ErrorCategory::SearchText,
                error: "Couldn't parse regex"@,
                detail: e.message(),
            },
        ],
    }
}

/// Parses a search text into a pattern. A refusal is handed back as a fault,
/// and the handler is told of it, and of nothing else.
pub fn parse_search_text<H: ValidationErrorHandler>(
    search_text: &str,
    fixed_strings: bool,
    advanced_regex: bool,
    error_handler: &mut H,
) -> (r: ValidationResult<SearchType>)
    ensures
        r matches ValidationResult::Success(search) ==> parsed(
            search_text@,
            fixed_strings,
            advanced_regex,
        ) == Ok::<SearchView, ErrorView>(search@),
        r matches ValidationResult::ValidationErrors(errors) ==> parsed(
            search_text@,
            fixed_strings,
            advanced_regex,
        ) is Err && fault_views(errors@) == parse_faults(
            search_text@,
            fixed_strings,
            advanced_regex,
        ),
        told_all(
            *old(error_handler),
            parse_faults(search_text@, fixed_strings, advanced_regex),
            *final(error_handler),
        ),
{
    let ghost start = *error_handler;
    match parse_search_text_inner(search_text, fixed_strings, advanced_regex) {
        Ok(pattern) => ValidationResult::Success(pattern),
        Err(e) => {
            let fault = search_text_fault(&e);
            error_handler.handle_search_text_error(fault.error.as_str(), fault.detail.as_str());
            proof {
                lemma_told_next(start, Seq::empty(), start, fault@, *error_handler);
                assert(Seq::<ValidationErrorView>::empty().push(fault@) =~= seq![fault@]);
            }
            let mut errors: Vec<ValidationError> = Vec::new();
            errors.push(fault);
            assert(fault_views(errors@) =~= seq![fault@]);
            ValidationResult::ValidationErrors(errors)
        },
    }
}

/// The fault that a refused search text is listed as.
fn search_text_fault(e: &Error) -> (fault: ValidationError)
    ensures
        fault@ == (ValidationErrorView {
            category: ErrorCategory::SearchText,
            error: "Couldn't parse regex"@,
            detail: e@.message(),
        }),
{
    ValidationError {
        category: ErrorCategory::SearchText,
        error: "Couldn't parse regex".to_owned(),
        detail: e.message(),
    }
}

/// Parses the globs of a directory configuration. Both lists are looked at,
/// whatever the first gives. The fault of each list that holds a refused
/// glob is handed back, and the handler is told of exactly these faults, in
/// the same order.
pub fn parse_overrides<H: ValidationErrorHandler>(dir: &DirConfig, error_handler: &mut H) -> (r:
    ValidationResult<Vec<String>>)
    ensures
        r matches ValidationResult::Success(overrides) ==> dir_faults(*dir).len() == 0 && texts(
            overrides@,
        ) == override_globs(*dir),
        r matches ValidationResult::ValidationErrors(errors) ==> errors@.len() > 0 && fault_views(
            errors@,
        ) == dir_faults(*dir),
        told_all(*old(error_handler), dir_faults(*dir), *final(error_handler)),
{
    let ghost start = *error_handler;
    let mut overrides: Vec<String> = Vec::new();
    let mut errors: Vec<ValidationError> = Vec::new();
    assert(texts(overrides@) =~= Seq::<Seq<char>>::empty());
    assert(fault_views(errors@) =~= Seq::<ValidationErrorView>::empty());
    match dir.include_globs {
        Some(include_globs) => {
            match add_overrides(&mut overrides, include_globs, "") {
                Ok(()) => {
                    assert(texts(overrides@) =~= optional_globs(dir.include_globs, ""@));
                },
                Err(e) => {
                    let fault = ValidationError {
                        category: ErrorCategory::IncludeFiles,
                        error: "Couldn't parse glob pattern".to_owned(),
                        detail: e.message(),
                    };
                    error_handler.handle_include_files_error(
                        fault.error.as_str(),
                        fault.detail.as_str(),
                    );
                    errors.push(fault);
                    assert(fault_views(errors@) =~= seq![fault@]);
                    proof {
                        lemma_told_next(start, Seq::empty(), start, fault@, *error_handler);
                        assert(Seq::<ValidationErrorView>::empty().push(fault@) =~= seq![fault@]);
                    }
                },
            }
        },
        None => {},
    }
    let ghost first = fault_views(errors@);
    let ghost included = texts(overrides@);
    let ghost mid = *error_handler;
    assert(first == listed(globs_fault(dir.include_globs, ""@, ErrorCategory::IncludeFiles)));
    assert(told_all(start, first, mid));
    match dir.exclude_globs {
        Some(exclude_globs) => {
            match add_overrides(&mut overrides, exclude_globs, "!") {
                Ok(()) => {
                    assert(texts(overrides@) =~= included + optional_globs(
                        dir.exclude_globs,
                        "!"@,
                    ));
                },
                Err(e) => {
                    let fault = ValidationError {
                        category: ErrorCategory::ExcludeFiles,
                        error: "Couldn't parse glob pattern".to_owned(),
                        detail: e.message(),
                    };
                    error_handler.handle_exclude_files_error(
                        fault.error.as_str(),
                        fault.detail.as_str(),
                    );
                    errors.push(fault);
                    assert(fault_views(errors@) =~= first.push(fault@));
                    proof {
                        lemma_told_next(start, first, mid, fault@, *error_handler);
                    }
                },
            }
        },
        None => {
            assert(texts(overrides@) =~= included + optional_globs(dir.exclude_globs, "!"@));
        },
    }
    assert(fault_views(errors@) =~= dir_faults(*dir));
    if errors.len() == 0 {
        ValidationResult::Success(overrides)
    } else {
        ValidationResult::ValidationErrors(errors)
    }
}

/// Checks a configuration. Every check is made, whatever the others give:
/// first that of the search text, then that of the globs to match, then that
/// of the globs not to match. The configuration is ready only where no check
/// finds a fault; else the faults are handed back, in that order. The handler
/// is told of exactly the faults found, in the same order, each by the method
/// of its category; where none is found it is left as it was.
pub fn validate_search_configuration<H: ValidationErrorHandler>(
    search_config: SearchConfiguration<'_>,
    dir_config: Option<DirConfig<'_>>,
    error_handler: &mut H,
) -> (r: ValidationResult<(ParsedSearchConfig, Option<ParsedDirConfig>)>)
    ensures
        r is Success <==> faults(search_config, dir_config).len() == 0,
        r matches ValidationResult::ValidationErrors(errors) ==> fault_views(errors@) == faults(
            search_config,
            dir_config,
        ),
        r matches ValidationResult::Success(ready) ==> {
            &&& compiled(
                search_config.search_text@,
                search_config.fixed_strings,
                search_config.advanced_regex,
                search_config.match_whole_word,
                search_config.match_case,
            ) == Ok::<SearchView, ErrorView>(ready.0@.search)
            &&& ready.0@.replace == search_config.replacement_text@
            &&& ready.1 is Some <==> dir_config is Some
            &&& ready.1 matches Some(dir) ==> dir@ == (ParsedDirConfigView {
                overrides: override_globs(dir_config.unwrap()),
                root_dir: dir_config.unwrap().directory@,
                include_hidden: dir_config.unwrap().include_hidden,
            })
        },
        told_all(
            *old(error_handler),
            faults(search_config, dir_config),
            *final(error_handler),
        ),
{
    let ghost start = *error_handler;
    let mut errors: Vec<ValidationError> = Vec::new();
    assert(fault_views(errors@) =~= Seq::<ValidationErrorView>::empty());
    let search = match compile_search(
        search_config.search_text,
        search_config.fixed_strings,
        search_config.advanced_regex,
        search_config.match_whole_word,
        search_config.match_case,
    ) {
        Ok(pattern) => Some(pattern),
        Err(e) => {
            let fault = search_text_fault(&e);
            error_handler.handle_search_text_error(fault.error.as_str(), fault.detail.as_str());
            errors.push(fault);
            assert(fault_views(errors@) =~= seq![fault@]);
            proof {
                lemma_told_next(start, Seq::empty(), start, fault@, *error_handler);
                assert(Seq::<ValidationErrorView>::empty().push(fault@) =~= seq![fault@]);
            }
            None
        },
    };
    let ghost first = fault_views(errors@);
    let ghost mid = *error_handler;
    assert(first == listed(search_fault(search_config)));
    assert(told_all(start, first, mid));
    let dir = match dir_config {
        Some(config) => {
            let parsed_globs = parse_overrides(&config, error_handler);
            proof {
                lemma_told_both(start, first, mid, dir_faults(config), *error_handler);
            }
            match parsed_globs {
                ValidationResult::Success(overrides) => Some(
                    ParsedDirConfig {
                        overrides,
                        root_dir: config.directory,
                        include_hidden: config.include_hidden,
                    },
                ),
                ValidationResult::ValidationErrors(found) => {
                    let ghost late = fault_views(found@);
                    let mut found = found;
                    errors.append(&mut found);
                    assert(fault_views(errors@) =~= first + late);
                    None
                },
            }
        },
        None => {
            assert(first + Seq::<ValidationErrorView>::empty() =~= first);
            None
        },
    };
    assert(fault_views(errors@) =~= faults(search_config, dir_config));
    if errors.len() == 0 {
        match search {
            Some(pattern) => ValidationResult::Success(
                (
                    ParsedSearchConfig {
                        search: pattern,
                        replace: search_config.replacement_text.to_owned(),
                    },
                    dir,
                ),
            ),
            None => ValidationResult::ValidationErrors(errors),
        }
    } else {
        ValidationResult::ValidationErrors(errors)
    }
}

} // verus!
