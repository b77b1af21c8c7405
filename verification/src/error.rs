//! What can go wrong.
use vstd::prelude::*;

use crate::seqs::option_view;

verus! {

/// Name under which the plugin is registered.
pub const PLUGIN_ID: &'static str = "herdr-agent-diff";

/// A failure: one of this program's own, or the text of one that the file
/// system, the JSON reader or the file watcher reported.
#[derive(Debug, PartialEq, Eq)]
pub enum Error {
    Message(String),
    Io(String),
    Json(String),
    Notify(String),
}

pub ghost enum ErrorView {
    Message(Seq<char>),
    Io(Seq<char>),
    Json(Seq<char>),
    Notify(Seq<char>),
}

impl View for Error {
    type V = ErrorView;

    open spec fn view(&self) -> ErrorView {
        match self {
            Error::Message(text) => ErrorView::Message(text@),
            Error::Io(text) => ErrorView::Io(text@),
            Error::Json(text) => ErrorView::Json(text@),
            Error::Notify(text) => ErrorView::Notify(text@),
        }
    }
}

pub open spec fn error_text(error: ErrorView) -> Seq<char> {
    match error {
        ErrorView::Message(text) => text,
        ErrorView::Io(text) => text,
        ErrorView::Json(text) => text,
        ErrorView::Notify(text) => text,
    }
}

impl Error {
    /// The failure in words.
    pub fn text(&self) -> (text: &str)
        ensures
            text@ == error_text(self@),
    {
        match self {
            Error::Message(text) => text.as_str(),
            Error::Io(text) => text.as_str(),
            Error::Json(text) => text.as_str(),
            Error::Notify(text) => text.as_str(),
        }
    }

    /// A failure of this program's own.
    pub fn message(text: &str) -> (error: Error)
        ensures
            error@ == ErrorView::Message(text@),
    {
        Error::Message(text.to_owned())
    }
}

impl Clone for Error {
    fn clone(&self) -> (copy: Self)
        ensures
            copy@ == self@,
    {
        match self {
            Error::Message(text) => Error::Message(text.clone()),
            Error::Io(text) => Error::Io(text.clone()),
            Error::Json(text) => Error::Json(text.clone()),
            Error::Notify(text) => Error::Notify(text.clone()),
        }
    }
}

/// What a result holds, by its views.
pub open spec fn result_view<T: View>(result: Result<T, Error>) -> Result<T::V, ErrorView> {
    match result {
        Ok(value) => Ok(value@),
        Err(error) => Err(error@),
    }
}

/// The directory that the plugin keeps its state in, from the value of
/// `HERDR_PLUGIN_STATE_DIR`.
pub fn state_dir(value: Option<Vec<u8>>) -> (result: Result<Vec<u8>, Error>)
    ensures
        result_view(result) == (match option_view(value) {
            Some(path) => Ok(path),
            None => Err(ErrorView::Message("HERDR_PLUGIN_STATE_DIR is not set"@)),
        }),
{
    match value {
        Some(path) => Ok(path),
        None => Err(Error::message("HERDR_PLUGIN_STATE_DIR is not set")),
    }
}

} // verus!
