//! The calls into the regular-expression and glob crates, and the two
//! conversions between bytes, characters and strings that `std` performs.
//!
//! Nothing in this file is proved. Each function states what the crate it
//! calls is relied on to do; the verified code elsewhere is proved from these
//! statements alone.

use vstd::prelude::*;
use vstd::utf8::*;

verus! {

/// What `regex::Regex::new` answers for `pattern`: `None` where the pattern
/// compiles, else the text of the error it is refused with.
pub uninterp spec fn regex_error(pattern: Seq<char>) -> Option<Seq<char>>;

/// Whether the regex that `regex::Regex::new` compiles from `pattern` has a
/// match anywhere in `text`, as `regex::Regex::is_match` reports it.
pub uninterp spec fn regex_is_match(pattern: Seq<char>, text: Seq<char>) -> bool;

/// What `regex::Regex::replace_all` returns for the regex compiled from
/// `pattern`, the haystack `text` and the replacement `replacement`, in which
/// `$name` and `$1` refer to capture groups.
pub uninterp spec fn regex_replace_all(
    pattern: Seq<char>,
    text: Seq<char>,
    replacement: Seq<char>,
) -> Seq<char>;

/// What `fancy_regex::Regex::new` answers for `pattern`: `None` where the
/// pattern compiles, else the text of the error it is refused with.
pub uninterp spec fn fancy_error(pattern: Seq<char>) -> Option<Seq<char>>;

/// What `fancy_regex::Regex::is_match` returns for the regex compiled from
/// `pattern` on `text`: whether there is a match, or `None` where the
/// backtracking engine gives up with a run-time error.
pub uninterp spec fn fancy_is_match(pattern: Seq<char>, text: Seq<char>) -> Option<bool>;

/// What `fancy_regex::Regex::try_replacen` returns with a limit of 0 (every
/// match) for the regex compiled from `pattern`: the new text, or `None`
/// where the engine gives up with a run-time error.
pub uninterp spec fn fancy_replace_all(
    pattern: Seq<char>,
    text: Seq<char>,
    replacement: Seq<char>,
) -> Option<Seq<char>>;

/// What `ignore::overrides::OverrideBuilder::add` answers for `glob` on a
/// builder with its default settings: `None` where the glob is accepted, else
/// the text of the error.
pub uninterp spec fn glob_error(glob: Seq<char>) -> Option<Seq<char>>;

/// The characters that `regex::escape` puts a backslash in front of.
pub open spec fn is_meta_character(c: char) -> bool {
    c == '\\' || c == '.' || c == '+' || c == '*' || c == '?' || c == '(' || c == ')' || c == '|'
        || c == '[' || c == ']' || c == '{' || c == '}' || c == '^' || c == '$' || c == '#' || c
        == '&' || c == '-' || c == '~'
}

/// `text` with a backslash in front of each meta character.
pub open spec fn escaped(text: Seq<char>) -> Seq<char>
    decreases text.len(),
{
    if text.len() == 0 {
        Seq::empty()
    } else if is_meta_character(text.last()) {
        escaped(text.drop_last()).push('\\').push(text.last())
    } else {
        escaped(text.drop_last()).push(text.last())
    }
}

/// Calls `regex::Regex::new` and hands back the error's text, if any.
/// Relied on: the outcome depends on the pattern alone.
#[verifier::external_body]
pub(crate) fn regex_compile_error(pattern: &str) -> (r: Option<String>)
    ensures
        r is None <==> regex_error(pattern@) is None,
        r matches Some(message) ==> regex_error(pattern@) == Some(message@),
{
    match regex::Regex::new(pattern) {
        Ok(_) => None,
        Err(e) => Some(e.to_string()),
    }
}

/// Calls `regex::Regex::is_match` on the regex compiled from `pattern`.
/// A pattern that does not compile matches nothing.
#[verifier::external_body]
pub(crate) fn regex_matches(pattern: &str, text: &str) -> (found: bool)
    ensures
        found == (regex_error(pattern@) is None && regex_is_match(pattern@, text@)),
{
    match regex::Regex::new(pattern) {
        Ok(re) => re.is_match(text),
        Err(_) => false,
    }
}

/// Calls `regex::Regex::replace_all` on the regex compiled from `pattern`.
/// `None` exactly where the pattern does not compile.
#[verifier::external_body]
pub(crate) fn regex_replace(pattern: &str, text: &str, replacement: &str) -> (r: Option<String>)
    ensures
        r is Some <==> regex_error(pattern@) is None,
        r matches Some(replaced) ==> replaced@ == regex_replace_all(
            pattern@,
            text@,
            replacement@,
        ),
{
    match regex::Regex::new(pattern) {
        Ok(re) => Some(re.replace_all(text, replacement).into_owned()),
        Err(_) => None,
    }
}

/// Calls `fancy_regex::Regex::new` and hands back the error's text, if any.
/// Relied on: the outcome depends on the pattern alone.
#[verifier::external_body]
pub(crate) fn fancy_compile_error(pattern: &str) -> (r: Option<String>)
    ensures
        r is None <==> fancy_error(pattern@) is None,
        r matches Some(message) ==> fancy_error(pattern@) == Some(message@),
{
    match fancy_regex::Regex::new(pattern) {
        Ok(_) => None,
        Err(e) => Some(e.to_string()),
    }
}

/// Calls `fancy_regex::Regex::is_match` on the regex compiled from `pattern`.
/// `None` where the pattern does not compile or the engine fails at run time.
#[verifier::external_body]
pub(crate) fn fancy_matches(pattern: &str, text: &str) -> (r: Option<bool>)
    ensures
        r == (if fancy_error(pattern@) is None {
            fancy_is_match(pattern@, text@)
        } else {
            None
        }),
{
    match fancy_regex::Regex::new(pattern) {
        Ok(re) => match re.is_match(text) {
            Ok(found) => Some(found),
            Err(_) => None,
        },
        Err(_) => None,
    }
}

/// Calls `fancy_regex::Regex::try_replacen` with a limit of 0 on the regex
/// compiled from `pattern`. `None` where the pattern does not compile or the
/// engine fails at run time.
#[verifier::external_body]
pub(crate) fn fancy_replace(pattern: &str, text: &str, replacement: &str) -> (r: Option<String>)
    ensures
        r is Some <==> (fancy_error(pattern@) is None && fancy_replace_all(
            pattern@,
            text@,
            replacement@,
        ) is Some),
        r matches Some(replaced) ==> fancy_replace_all(pattern@, text@, replacement@) == Some(
            replaced@,
        ),
{
    match fancy_regex::Regex::new(pattern) {
        Ok(re) => match re.try_replacen(text, 0, replacement) {
            Ok(replaced) => Some(replaced.into_owned()),
            Err(_) => None,
        },
        Err(_) => None,
    }
}

/// Calls `regex::escape`, which copies `text` and puts a backslash in front
/// of each meta character.
#[verifier::external_body]
pub(crate) fn regex_escape(text: &str) -> (r: String)
    ensures
        r@ == escaped(text@),
{
    regex::escape(text)
}

/// Calls `ignore::overrides::OverrideBuilder::add` on a fresh builder and
/// hands back the error's text, if any. Relied on: whether a glob is accepted
/// depends on the glob alone.
#[verifier::external_body]
pub(crate) fn glob_check(glob: &str) -> (r: Option<String>)
    ensures
        r is None <==> glob_error(glob@) is None,
        r matches Some(message) ==> glob_error(glob@) == Some(message@),
{
    match ignore::overrides::OverrideBuilder::new("").add(glob) {
        Ok(_) => None,
        Err(e) => Some(e.to_string()),
    }
}

/// Calls `String::from_utf8`: the text that `bytes` encode, or `None` where
/// they are not UTF-8.
#[verifier::external_body]
pub(crate) fn decode_text(bytes: Vec<u8>) -> (r: Option<String>)
    ensures
        r is Some <==> valid_utf8(bytes@),
        r matches Some(text) ==> text@ == decode_utf8(bytes@),
{
    match String::from_utf8(bytes) {
        Ok(text) => Some(text),
        Err(_) => None,
    }
}

/// Calls `String::from_iter`: the string made of `chars`, in order.
#[verifier::external_body]
pub(crate) fn string_from_chars(chars: &Vec<char>) -> (r: String)
    ensures
        r@ == chars@,
{
    String::from_iter(chars)
}

} // verus!
