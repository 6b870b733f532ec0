//! The options of the command line as plain values, and the rules that they
//! must meet before a run starts.

use crate::text::{to_chars, trim, trimmed};
use crate::validation::{DirConfig, SearchConfiguration};
use vstd::prelude::*;
use vstd::string::*;

verus! {

/// The options of one call of the program.
#[derive(Clone, Debug, PartialEq, Eq)]
pub struct Args {
    /// What to search for: a regular expression, or a literal with
    /// `fixed_strings`.
    pub search_text: String,
    /// What to put in its place; absent where matches are deleted.
    pub replace_text: Option<String>,
    /// The directory to search in.
    pub directory: String,
    pub fixed_strings: bool,
    pub match_whole_word: bool,
    pub case_insensitive: bool,
    /// Comma-separated globs that file paths must match.
    pub include_files: Option<String>,
    /// Comma-separated globs that file paths must not match.
    pub exclude_files: Option<String>,
    /// Hidden files and directories are searched too.
    pub hidden: bool,
    pub advanced_regex: bool,
    /// Matches are deleted.
    pub delete: bool,
}

/// A rule that the options break.
#[derive(Clone, Copy, Debug, PartialEq, Eq, Structural)]
pub enum ArgsError {
    EmptySearchText,
    NoReplacementNorDelete,
    ReplacementAndDelete,
    HiddenWithStdin,
    IncludeFilesWithStdin,
    ExcludeFilesWithStdin,
}

impl ArgsError {
    /// The text that tells the user which rule is broken.
    pub open spec fn text(self) -> Seq<char> {
        match self {
            ArgsError::EmptySearchText => "Search text must not be empty"@,
            ArgsError::NoReplacementNorDelete =>
                "You must either specify either replacement text (`frep before after`) or use --delete to delete matches `(frep before --delete)`"@,
            ArgsError::ReplacementAndDelete =>
                "You cannot specify both replacement text and the --delete flag. Use either replacement text (`frep before after`) or the --delete flag (`frep before --delete`)"@,
            ArgsError::HiddenWithStdin => "Cannot use --hidden flag with stdin input"@,
            ArgsError::IncludeFilesWithStdin => "Cannot use --include-files with stdin input"@,
            ArgsError::ExcludeFilesWithStdin => "Cannot use --exclude-files with stdin input"@,
        }
    }

    /// The text that tells the user which rule is broken.
    pub fn message(&self) -> (text: String)
        ensures
            text@ == self.text(),
    {
        match self {
            ArgsError::EmptySearchText => "Search text must not be empty".to_owned(),
            ArgsError::NoReplacementNorDelete =>
                "You must either specify either replacement text (`frep before after`) or use --delete to delete matches `(frep before --delete)`".to_owned(),
            ArgsError::ReplacementAndDelete =>
                "You cannot specify both replacement text and the --delete flag. Use either replacement text (`frep before after`) or the --delete flag (`frep before --delete`)".to_owned(),
            ArgsError::HiddenWithStdin => "Cannot use --hidden flag with stdin input".to_owned(),
            ArgsError::IncludeFilesWithStdin =>
                "Cannot use --include-files with stdin input".to_owned(),
            ArgsError::ExcludeFilesWithStdin =>
                "Cannot use --exclude-files with stdin input".to_owned(),
        }
    }
}

/// The first rule that the options break, if any. The search text must not
/// be empty. Exactly one of a replacement text and the delete flag must be
/// given. With input from stdin there are no files, so none of the options
/// that choose files may be given.
pub open spec fn broken_rule(args: Args, stdin: bool) -> Option<ArgsError> {
    if args.search_text@.len() == 0 {
        Some(ArgsError::EmptySearchText)
    } else if args.replace_text is None && !args.delete {
        Some(ArgsError::NoReplacementNorDelete)
    } else if args.replace_text is Some && args.delete {
        Some(ArgsError::ReplacementAndDelete)
    } else if stdin && args.hidden {
        Some(ArgsError::HiddenWithStdin)
    } else if stdin && args.include_files is Some {
        Some(ArgsError::IncludeFilesWithStdin)
    } else if stdin && args.exclude_files is Some {
        Some(ArgsError::ExcludeFilesWithStdin)
    } else {
        None
    }
}

/// Checks the options against the rules, given the input that came from
/// stdin, if any.
pub fn validate_args(args: &Args, stdin_content: Option<&String>) -> (r: Result<(), ArgsError>)
    ensures
        r is Ok <==> broken_rule(*args, stdin_content is Some) is None,
        r matches Err(e) ==> broken_rule(*args, stdin_content is Some) == Some(e),
{
    if args.search_text.as_str().is_empty() {
        return Err(ArgsError::EmptySearchText);
    }
    if args.replace_text.is_none() && !args.delete {
        return Err(ArgsError::NoReplacementNorDelete);
    }
    if args.replace_text.is_some() && args.delete {
        return Err(ArgsError::ReplacementAndDelete);
    }
    if stdin_content.is_some() {
        if args.hidden {
            return Err(ArgsError::HiddenWithStdin);
        }
        if args.include_files.is_some() {
            return Err(ArgsError::IncludeFilesWithStdin);
        }
        if args.exclude_files.is_some() {
            return Err(ArgsError::ExcludeFilesWithStdin);
        }
    }
    Ok(())
}

/// What was read from stdin as input for a run: the text, or `None` where it
/// holds nothing but whitespace.
pub fn stdin_input(content: String) -> (input: Option<String>)
    ensures
        input is Some <==> trimmed(content@).len() > 0,
        input matches Some(text) ==> text@ == content@,
{
    let chars = to_chars(content.as_str());
    if trim(&chars).len() == 0 {
        None
    } else {
        Some(content)
    }
}

/// The search configuration that the options stand for. Where no replacement
/// text is given, matches are replaced by nothing.
pub fn search_config_from_args(args: &Args) -> (config: SearchConfiguration<'_>)
    ensures
        config.search_text@ == args.search_text@,
        config.replacement_text@ == (match args.replace_text {
            Some(text) => text@,
            None => Seq::<char>::empty(),
        }),
        config.fixed_strings == args.fixed_strings,
        config.advanced_regex == args.advanced_regex,
        config.match_whole_word == args.match_whole_word,
        config.match_case == !args.case_insensitive,
{
    let replacement_text: &str = match &args.replace_text {
        Some(text) => text.as_str(),
        None => "",
    };
    proof {
        reveal_strlit("");
        assert(""@ =~= Seq::<char>::empty());
    }
    SearchConfiguration {
        search_text: args.search_text.as_str(),
        replacement_text,
        fixed_strings: args.fixed_strings,
        advanced_regex: args.advanced_regex,
        match_whole_word: args.match_whole_word,
        match_case: !args.case_insensitive,
    }
}

/// The directory configuration that the options stand for.
pub fn dir_config_from_args(args: &Args) -> (config: DirConfig<'_>)
    ensures
        config.include_globs is Some <==> args.include_files is Some,
        config.include_globs matches Some(globs) ==> globs@ == args.include_files.unwrap()@,
        config.exclude_globs is Some <==> args.exclude_files is Some,
        config.exclude_globs matches Some(globs) ==> globs@ == args.exclude_files.unwrap()@,
        config.include_hidden == args.hidden,
        config.directory@ == args.directory@,
{
    DirConfig {
        include_globs: match &args.include_files {
            Some(globs) => Some(globs.as_str()),
            None => None,
        },
        exclude_globs: match &args.exclude_files {
            Some(globs) => Some(globs.as_str()),
            None => None,
        },
        include_hidden: args.hidden,
        directory: args.directory.clone(),
    }
}

} // verus!
