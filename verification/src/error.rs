//! Errors of page parsing and of the site's answers.

use vstd::prelude::*;
use crate::numbers::{debug_str, str_debug_text};
use crate::text::{dec, push_dec};

verus! {

/// An error met while reading the site's pages.
#[derive(Debug)]
pub enum Error {
    /// A fixed message.
    StrErr(&'static str),
    /// The site answered with a status other than 200.
    StatusCodeErr(u16),
    /// A number could not be read; holds the parser's error as its `Display`
    /// and its `Debug` render it.
    ParseIntErr(String, String),
}

/// What an [`Error`] is, as plain values.
pub enum ErrorView {
    StrErr(Seq<char>),
    StatusCodeErr(u16),
    ParseIntErr(Seq<char>, Seq<char>),
}

impl View for Error {
    type V = ErrorView;

    open spec fn view(&self) -> ErrorView {
        match self {
            Error::StrErr(s) => ErrorView::StrErr(s@),
            Error::StatusCodeErr(c) => ErrorView::StatusCodeErr(*c),
            Error::ParseIntErr(m, d) => ErrorView::ParseIntErr(m@, d@),
        }
    }
}

/// The text that the error's `Display` renders.
pub open spec fn error_text(e: ErrorView) -> Seq<char> {
    match e {
        ErrorView::StrErr(s) => s,
        ErrorView::StatusCodeErr(c) => "Satus Code: "@ + dec(c as nat),
        ErrorView::ParseIntErr(m, _) => m,
    }
}

/// The text that the error's `Debug` renders: a fixed message in quotes, as
/// a string's `Debug` renders it; the status line; the parser error's `Debug`.
pub open spec fn error_debug_text(e: ErrorView) -> Seq<char> {
    match e {
        ErrorView::StrErr(s) => str_debug_text(s),
        ErrorView::StatusCodeErr(c) => "Satus Code: "@ + dec(c as nat),
        ErrorView::ParseIntErr(_, d) => d,
    }
}

impl Error {
    /// The text of the error, as `to_string` renders it.
    pub fn message(&self) -> (r: String)
        ensures
            r@ == error_text(self@),
    {
        match self {
            Error::StrErr(s) => String::from_str(s),
            Error::StatusCodeErr(c) => {
                let mut out = String::from_str("Satus Code: ");
                push_dec(&mut out, *c as u64);
                out
            },
            Error::ParseIntErr(m, _) => m.clone(),
        }
    }

    /// The text of the error, as `{:?}` renders it.
    pub fn debug_text(&self) -> (r: String)
        ensures
            r@ == error_debug_text(self@),
    {
        match self {
            Error::StrErr(s) => debug_str(s),
            Error::StatusCodeErr(c) => {
                let mut out = String::from_str("Satus Code: ");
                push_dec(&mut out, *c as u64);
                out
            },
            Error::ParseIntErr(_, d) => d.clone(),
        }
    }
}

} // verus!
