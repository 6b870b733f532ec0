//! Telling failures apart, and reading comma-separated lists of globs.

use crate::engine::{glob_check, glob_error, string_from_chars};
use crate::error::Error;
use crate::text::{entries_among, list_entries, pieces, rows, split, to_chars, trim};
use vstd::prelude::*;
use vstd::string::*;

verus! {

/// Whether the failure is a search text that a regular-expression engine
/// refuses.
pub fn is_regex_error(e: &Error) -> (is_regex: bool)
    ensures
        is_regex == (e@ is Regex || e@ is AdvancedRegex),
{
    match e {
        Error::Regex(_) => true,
        Error::AdvancedRegex(_) => true,
        Error::Glob(_) => false,
        Error::Validation(_) => false,
    }
}

/// The texts of a list of strings.
pub open spec fn texts(strings: Seq<String>) -> Seq<Seq<char>> {
    strings.map_values(|s: String| s@)
}

/// The entries of the comma-separated list `files`: its pieces without the
/// whitespace around them, the empty ones left out.
pub fn split_list(files: &str) -> (entries: Vec<String>)
    ensures
        texts(entries@) == list_entries(files@),
{
    let chars = to_chars(files);
    let cut = split(&chars, ',');
    let ghost all = rows(cut@);
    let mut entries: Vec<String> = Vec::new();
    let mut i: usize = 0;
    proof {
        assert(all.take(0) =~= Seq::<Seq<char>>::empty());
        assert(texts(entries@) =~= entries_among(all.take(0)));
    }
    while i < cut.len()
        invariant
            i <= cut.len(),
            all == rows(cut@),
            texts(entries@) == entries_among(all.take(i as int)),
        decreases cut.len() - i,
    {
        proof {
            assert(all.take(i + 1).drop_last() =~= all.take(i as int));
            assert(all.take(i + 1).last() == cut@[i as int]@);
        }
        let entry = trim(&cut[i]);
        if entry.len() > 0 {
            let ghost earlier = texts(entries@);
            let text = string_from_chars(&entry);
            entries.push(text);
            assert(texts(entries@) =~= earlier.push(text@));
        }
        i += 1;
    }
    proof {
        assert(all.take(i as int) =~= all);
    }
    entries
}

/// The globs that a comma-separated list stands for: each entry with
/// `prefix` in front of it.
pub open spec fn globs_of(files: Seq<char>, prefix: Seq<char>) -> Seq<Seq<char>> {
    list_entries(files).map_values(|entry: Seq<char>| prefix + entry)
}

/// The position of the first glob that is refused; the length of the list
/// where none is.
pub open spec fn first_refused(globs: Seq<Seq<char>>) -> int
    decreases globs.len(),
{
    if globs.len() == 0 {
        0
    } else if glob_error(globs[0]) is Some {
        0
    } else {
        1 + first_refused(globs.skip(1))
    }
}

/// The error of the first glob that is refused; `None` where none is.
pub open spec fn refusal(globs: Seq<Seq<char>>) -> Option<Seq<char>> {
    if first_refused(globs) < globs.len() {
        glob_error(globs[first_refused(globs)])
    } else {
        None
    }
}

/// The first refused glob is the one in front of which every glob is
/// accepted.
pub proof fn lemma_first_refused(globs: Seq<Seq<char>>, k: int)
    requires
        0 <= k <= globs.len(),
        forall|j: int| 0 <= j < k ==> glob_error(#[trigger] globs[j]) is None,
        k < globs.len() ==> glob_error(globs[k]) is Some,
    ensures
        first_refused(globs) == k,
    decreases globs.len(),
{
    if globs.len() > 0 && k > 0 {
        assert(glob_error(globs[0]) is None);
        assert forall|j: int| 0 <= j < k - 1 implies glob_error(#[trigger] globs.skip(1)[j])
            is None by {
            assert(globs.skip(1)[j] == globs[j + 1]);
        }
        if k < globs.len() {
            assert(globs.skip(1)[k - 1] == globs[k]);
        }
        lemma_first_refused(globs.skip(1), k - 1);
    }
}

/// Adds the globs of the comma-separated list `files`, each with `prefix` in
/// front, to `overrides`, up to the first that is refused. That glob's error
/// is returned, and the globs behind it are not looked at.
pub fn add_overrides(overrides: &mut Vec<String>, files: &str, prefix: &str) -> (r: Result<
    (),
    Error,
>)
    ensures
        texts(final(overrides)@) == texts(old(overrides)@) + globs_of(files@, prefix@).take(
            first_refused(globs_of(files@, prefix@)),
        ),
        r is Ok <==> refusal(globs_of(files@, prefix@)) is None,
        r is Ok ==> texts(final(overrides)@) == texts(old(overrides)@) + globs_of(
            files@,
            prefix@,
        ),
        r matches Err(e) ==> refusal(globs_of(files@, prefix@)) == Some(e@.message()) && e@
            is Glob,
{
    let entries = split_list(files);
    let ghost globs = globs_of(files@, prefix@);
    let ghost before = texts(overrides@);
    let mut i: usize = 0;
    proof {
        assert(globs.len() == entries.len());
        assert(before + globs.take(0) =~= before);
    }
    while i < entries.len()
        invariant
            i <= entries.len(),
            globs == globs_of(files@, prefix@),
            globs.len() == entries.len(),
            before == texts(old(overrides)@),
            texts(entries@) == list_entries(files@),
            forall|j: int| 0 <= j < i ==> glob_error(#[trigger] globs[j]) is None,
            texts(overrides@) == before + globs.take(i as int),
        decreases entries.len() - i,
    {
        let mut glob = prefix.to_owned();
        glob.append(entries[i].as_str());
        proof {
            assert(texts(entries@)[i as int] == entries@[i as int]@);
            assert(glob@ == globs[i as int]);
        }
        match glob_check(glob.as_str()) {
            Some(message) => {
                proof {
                    lemma_first_refused(globs, i as int);
                }
                return Err(Error::Glob(message));
            },
            None => {},
        }
        let ghost earlier = texts(overrides@);
        overrides.push(glob);
        proof {
            assert(texts(overrides@) =~= earlier.push(glob@));
            assert(globs.take(i + 1) =~= globs.take(i as int).push(globs[i as int]));
            assert(before + globs.take(i + 1) =~= (before + globs.take(i as int)).push(
                globs[i as int],
            ));
        }
        i += 1;
    }
    proof {
        lemma_first_refused(globs, i as int);
        assert(globs.take(i as int) =~= globs);
    }
    Ok(())
}

} // verus!
