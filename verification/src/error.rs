//! The error type of the engine.
//!
//! Errors of the storage, columnar and parser crates are carried as the text that those crates
//! print for them, so that a contract can speak of every error as a plain value.

use crate::text::join;
use vstd::prelude::*;

verus! {

/// What went wrong.
#[derive(Debug, PartialEq, Eq)]
pub enum SparkXError {
    Arrow(String),
    Parquet(String),
    Io(String),
    Sql(String),
    Transport(String),
    Planning(String),
    Execution(String),
    Unsupported(String),
    Protocol(String),
    NotFound(String),
    ResourceExhausted(String),
    Cancelled,
    ChannelClosed,
}

/// An error as contracts see it: its kind and its text.
pub enum ErrorView {
    Arrow(Seq<char>),
    Parquet(Seq<char>),
    Io(Seq<char>),
    Sql(Seq<char>),
    Transport(Seq<char>),
    Planning(Seq<char>),
    Execution(Seq<char>),
    Unsupported(Seq<char>),
    Protocol(Seq<char>),
    NotFound(Seq<char>),
    ResourceExhausted(Seq<char>),
    Cancelled,
    ChannelClosed,
}

impl View for SparkXError {
    type V = ErrorView;

    open spec fn view(&self) -> ErrorView {
        match self {
            SparkXError::Arrow(m) => ErrorView::Arrow(m@),
            SparkXError::Parquet(m) => ErrorView::Parquet(m@),
            SparkXError::Io(m) => ErrorView::Io(m@),
            SparkXError::Sql(m) => ErrorView::Sql(m@),
            SparkXError::Transport(m) => ErrorView::Transport(m@),
            SparkXError::Planning(m) => ErrorView::Planning(m@),
            SparkXError::Execution(m) => ErrorView::Execution(m@),
            SparkXError::Unsupported(m) => ErrorView::Unsupported(m@),
            SparkXError::Protocol(m) => ErrorView::Protocol(m@),
            SparkXError::NotFound(m) => ErrorView::NotFound(m@),
            SparkXError::ResourceExhausted(m) => ErrorView::ResourceExhausted(m@),
            SparkXError::Cancelled => ErrorView::Cancelled,
            SparkXError::ChannelClosed => ErrorView::ChannelClosed,
        }
    }
}

impl ErrorView {
    /// The text shown for an error.
    pub open spec fn text(self) -> Seq<char> {
        match self {
            ErrorView::Arrow(m) => "Arrow error: "@ + m,
            ErrorView::Parquet(m) => "Parquet error: "@ + m,
            ErrorView::Io(m) => "I/O error: "@ + m,
            ErrorView::Sql(m) => "SQL parse error: "@ + m,
            ErrorView::Transport(m) => "transport error: "@ + m,
            ErrorView::Planning(m) => "planning error: "@ + m,
            ErrorView::Execution(m) => "execution error: "@ + m,
            ErrorView::Unsupported(m) => "unsupported operation: "@ + m,
            ErrorView::Protocol(m) => "protocol error: "@ + m,
            ErrorView::NotFound(m) => "resource not found: "@ + m,
            ErrorView::ResourceExhausted(m) => "resource exhausted: "@ + m,
            ErrorView::Cancelled => "query was cancelled"@,
            ErrorView::ChannelClosed => "operator channel closed unexpectedly"@,
        }
    }
}

/// A result with its error seen through the view.
pub open spec fn outcome<T>(r: Result<T, SparkXError>) -> Result<T, ErrorView> {
    match r {
        Ok(value) => Ok(value),
        Err(error) => Err(error@),
    }
}

impl SparkXError {
    pub fn planning(message: String) -> (r: Self)
        ensures
            r@ == ErrorView::Planning(message@),
    {
        SparkXError::Planning(message)
    }

    pub fn execution(message: String) -> (r: Self)
        ensures
            r@ == ErrorView::Execution(message@),
    {
        SparkXError::Execution(message)
    }

    pub fn unsupported(message: String) -> (r: Self)
        ensures
            r@ == ErrorView::Unsupported(message@),
    {
        SparkXError::Unsupported(message)
    }

    pub fn protocol(message: String) -> (r: Self)
        ensures
            r@ == ErrorView::Protocol(message@),
    {
        SparkXError::Protocol(message)
    }

    pub fn resource_exhausted(message: String) -> (r: Self)
        ensures
            r@ == ErrorView::ResourceExhausted(message@),
    {
        SparkXError::ResourceExhausted(message)
    }

    pub fn transport(message: String) -> (r: Self)
        ensures
            r@ == ErrorView::Transport(message@),
    {
        SparkXError::Transport(message)
    }

    /// The text shown for this error.
    pub fn to_text(&self) -> (r: String)
        ensures
            r@ == self@.text(),
    {
        match self {
            SparkXError::Arrow(m) => join("Arrow error: ", m.as_str()),
            SparkXError::Parquet(m) => join("Parquet error: ", m.as_str()),
            SparkXError::Io(m) => join("I/O error: ", m.as_str()),
            SparkXError::Sql(m) => join("SQL parse error: ", m.as_str()),
            SparkXError::Transport(m) => join("transport error: ", m.as_str()),
            SparkXError::Planning(m) => join("planning error: ", m.as_str()),
            SparkXError::Execution(m) => join("execution error: ", m.as_str()),
            SparkXError::Unsupported(m) => join("unsupported operation: ", m.as_str()),
            SparkXError::Protocol(m) => join("protocol error: ", m.as_str()),
            SparkXError::NotFound(m) => join("resource not found: ", m.as_str()),
            SparkXError::ResourceExhausted(m) => join("resource exhausted: ", m.as_str()),
            SparkXError::Cancelled => "query was cancelled".to_owned(),
            SparkXError::ChannelClosed => "operator channel closed unexpectedly".to_owned(),
        }
    }
}

} // verus!
