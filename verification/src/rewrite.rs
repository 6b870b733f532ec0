//! The course of rewriting one file, as a state machine.
//!
//! The machine decides; its caller acts. The caller reads the file's size,
//! reads and writes content, and reports what happened as an event; the
//! machine answers with the next state and with what to do next. A file of
//! at most the threshold's size is first tried in memory, as one text; when
//! that fails for any reason the file goes line by line instead, so that the
//! size check only ever saves work.

use crate::replace::{replace_in_memory, replacement};
use crate::search::{SearchType, SearchView};
use vstd::prelude::*;

verus! {

/// Where the rewriting of one file stands.
#[derive(Clone, Copy, Debug, PartialEq, Eq, Structural)]
pub enum RewriteState {
    /// Waiting for the size of the file.
    SizeCheck,
    /// The file is being replaced as one text.
    InMemory,
    /// The file is being replaced line by line.
    Streaming,
    /// The file has been dealt with.
    Done,
    /// The file could not be rewritten.
    Failed,
}

/// Why a file could not be rewritten.
#[derive(Clone, Copy, Debug, PartialEq, Eq, Structural)]
pub enum RewriteFailure {
    /// The path has no parent directory to hold the temporary file.
    NoParentDirectory,
    /// Reading, writing or renaming failed on the line-by-line path.
    Io,
    /// An event came that the state does not expect.
    UnexpectedEvent,
}

/// What the caller reports to the machine.
#[derive(Clone, Debug, PartialEq, Eq)]
pub enum RewriteEvent {
    /// The path of the file has no parent directory.
    NoParentDirectory,
    /// The size of the file in bytes.
    Size(u64),
    /// The size of the file could not be read.
    SizeUnknown,
    /// The whole file, read as text.
    Text(String),
    /// The file could not be read as text: reading failed, or it is not
    /// UTF-8.
    Unreadable,
    /// The new content was written and renamed into place.
    Written,
    /// Writing or renaming the new content failed.
    WriteFailed,
    /// The line-by-line path ran to its end; the flag says whether it changed
    /// the file.
    Streamed(bool),
    /// The line-by-line path failed.
    StreamFailed,
}

/// What the machine asks of the caller.
#[derive(Clone, Debug, PartialEq, Eq)]
pub enum RewriteAction {
    /// Read the whole file as text and report it.
    ReadText,
    /// Write this text to a temporary file beside the target and rename it
    /// over the target.
    Write(String),
    /// Run the line-by-line path: the scanning pass, and the rewrite pass if
    /// it found anything.
    Stream,
    /// Stop: the file is dealt with; the flag says whether it was changed.
    Finish(bool),
    /// Stop: the file could not be rewritten.
    Fail(RewriteFailure),
    /// Nothing is left to do.
    Nothing,
}

/// An event as a value.
pub enum RewriteEventView {
    NoParentDirectory,
    Size(u64),
    SizeUnknown,
    Text(Seq<char>),
    Unreadable,
    Written,
    WriteFailed,
    Streamed(bool),
    StreamFailed,
}

/// An action as a value.
pub enum RewriteActionView {
    ReadText,
    Write(Seq<char>),
    Stream,
    Finish(bool),
    Fail(RewriteFailure),
    Nothing,
}

impl View for RewriteEvent {
    type V = RewriteEventView;

    open spec fn view(&self) -> RewriteEventView {
        match self {
            RewriteEvent::NoParentDirectory => RewriteEventView::NoParentDirectory,
            RewriteEvent::Size(size) => RewriteEventView::Size(*size),
            RewriteEvent::SizeUnknown => RewriteEventView::SizeUnknown,
            RewriteEvent::Text(content) => RewriteEventView::Text(content@),
            RewriteEvent::Unreadable => RewriteEventView::Unreadable,
            RewriteEvent::Written => RewriteEventView::Written,
            RewriteEvent::WriteFailed => RewriteEventView::WriteFailed,
            RewriteEvent::Streamed(changed) => RewriteEventView::Streamed(*changed),
            RewriteEvent::StreamFailed => RewriteEventView::StreamFailed,
        }
    }
}

impl View for RewriteAction {
    type V = RewriteActionView;

    open spec fn view(&self) -> RewriteActionView {
        match self {
            RewriteAction::ReadText => RewriteActionView::ReadText,
            RewriteAction::Write(content) => RewriteActionView::Write(content@),
            RewriteAction::Stream => RewriteActionView::Stream,
            RewriteAction::Finish(changed) => RewriteActionView::Finish(*changed),
            RewriteAction::Fail(failure) => RewriteActionView::Fail(*failure),
            RewriteAction::Nothing => RewriteActionView::Nothing,
        }
    }
}

/// The next state and the action that `event` leads to in `state`.
pub open spec fn step(
    state: RewriteState,
    event: RewriteEventView,
    search: SearchView,
    replace: Seq<char>,
    threshold: u64,
) -> (RewriteState, RewriteActionView) {
    match (state, event) {
        (RewriteState::Done, _) => (RewriteState::Done, RewriteActionView::Nothing),
        (RewriteState::Failed, _) => (RewriteState::Failed, RewriteActionView::Nothing),
        (RewriteState::SizeCheck, RewriteEventView::NoParentDirectory) => (
            RewriteState::Failed,
            RewriteActionView::Fail(RewriteFailure::NoParentDirectory),
        ),
        (RewriteState::SizeCheck, RewriteEventView::Size(size)) => if size <= threshold {
            (RewriteState::InMemory, RewriteActionView::ReadText)
        } else {
            (RewriteState::Streaming, RewriteActionView::Stream)
        },
        (RewriteState::SizeCheck, RewriteEventView::SizeUnknown) => (
            RewriteState::Streaming,
            RewriteActionView::Stream,
        ),
        (RewriteState::InMemory, RewriteEventView::Text(content)) => match replacement(
            content,
            search,
            replace,
        ) {
            Some(text) => (RewriteState::InMemory, RewriteActionView::Write(text)),
            None => (RewriteState::Done, RewriteActionView::Finish(false)),
        },
        (RewriteState::InMemory, RewriteEventView::Written) => (
            RewriteState::Done,
            RewriteActionView::Finish(true),
        ),
        (RewriteState::InMemory, RewriteEventView::Unreadable) => (
            RewriteState::Streaming,
            RewriteActionView::Stream,
        ),
        (RewriteState::InMemory, RewriteEventView::WriteFailed) => (
            RewriteState::Streaming,
            RewriteActionView::Stream,
        ),
        (RewriteState::Streaming, RewriteEventView::Streamed(changed)) => (
            RewriteState::Done,
            RewriteActionView::Finish(changed),
        ),
        (RewriteState::Streaming, RewriteEventView::StreamFailed) => (
            RewriteState::Failed,
            RewriteActionView::Fail(RewriteFailure::Io),
        ),
        _ => (RewriteState::Failed, RewriteActionView::Fail(RewriteFailure::UnexpectedEvent)),
    }
}

/// Takes the machine one step: from `state` and what the caller reports to
/// the next state and what the caller is to do.
pub fn rewrite_step(
    state: RewriteState,
    event: RewriteEvent,
    search: &SearchType,
    replace: &str,
    threshold: u64,
) -> (next: (RewriteState, RewriteAction))
    ensures
        (next.0, next.1@) == step(state, event@, search@, replace@, threshold),
{
    match state {
        RewriteState::Done => (RewriteState::Done, RewriteAction::Nothing),
        RewriteState::Failed => (RewriteState::Failed, RewriteAction::Nothing),
        RewriteState::SizeCheck => match event {
            RewriteEvent::NoParentDirectory => (
                RewriteState::Failed,
                RewriteAction::Fail(RewriteFailure::NoParentDirectory),
            ),
            RewriteEvent::Size(size) => if size <= threshold {
                (RewriteState::InMemory, RewriteAction::ReadText)
            } else {
                (RewriteState::Streaming, RewriteAction::Stream)
            },
            RewriteEvent::SizeUnknown => (RewriteState::Streaming, RewriteAction::Stream),
            _ => (RewriteState::Failed, RewriteAction::Fail(RewriteFailure::UnexpectedEvent)),
        },
        RewriteState::InMemory => match event {
            RewriteEvent::Text(content) => match replace_in_memory(
                content.as_str(),
                search,
                replace,
            ) {
                Some(text) => (RewriteState::InMemory, RewriteAction::Write(text)),
                None => (RewriteState::Done, RewriteAction::Finish(false)),
            },
            RewriteEvent::Written => (RewriteState::Done, RewriteAction::Finish(true)),
            RewriteEvent::Unreadable => (RewriteState::Streaming, RewriteAction::Stream),
            RewriteEvent::WriteFailed => (RewriteState::Streaming, RewriteAction::Stream),
            _ => (RewriteState::Failed, RewriteAction::Fail(RewriteFailure::UnexpectedEvent)),
        },
        RewriteState::Streaming => match event {
            RewriteEvent::Streamed(changed) => (RewriteState::Done, RewriteAction::Finish(changed)),
            RewriteEvent::StreamFailed => (
                RewriteState::Failed,
                RewriteAction::Fail(RewriteFailure::Io),
            ),
            _ => (RewriteState::Failed, RewriteAction::Fail(RewriteFailure::UnexpectedEvent)),
        },
    }
}

/// A file over the threshold never goes through memory, and a failure in
/// memory never fails the file: it sends the file to the line-by-line path.
pub proof fn lemma_fallback(
    event: RewriteEventView,
    search: SearchView,
    replace: Seq<char>,
    threshold: u64,
)
    ensures
        event matches RewriteEventView::Size(size) && size > threshold ==> step(
            RewriteState::SizeCheck,
            event,
            search,
            replace,
            threshold,
        ) == (RewriteState::Streaming, RewriteActionView::Stream),
        event is Unreadable || event is WriteFailed ==> step(
            RewriteState::InMemory,
            event,
            search,
            replace,
            threshold,
        ) == (RewriteState::Streaming, RewriteActionView::Stream),
{
}

} // verus!
