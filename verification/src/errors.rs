//! The two error taxonomies of the crate: fatal errors found while
//! parsing a stream, and per-lookup errors found while evaluating
//! variables.

use vstd::prelude::*;

verus! {

/// An enum for errors that occur during stream parsing.
#[derive(Debug, Clone, PartialEq, Eq)]
#[non_exhaustive]
pub enum ParseError {
    /// The srcsrv stream is not valid UTF-8.
    InvalidUtf8,
    /// The srcsrv stream ended unexpectedly.
    UnexpectedEof,
    /// The named value is not a recognized srcsrv stream version.
    UnrecognizedVersion(String),
    /// The VERSION ini variable is missing.
    MissingVersion,
    /// Could not find the ini section in the srcsrv stream.
    MissingIniSection,
    /// Could not find the variables section in the srcsrv stream.
    MissingVariablesSection,
    /// The SRCSRVTRG field was missing. This is a required field.
    MissingSrcSrvTrgField,
    /// Could not find the source files section in the srcsrv stream.
    MissingSourceFilesSection,
    /// Could not find the end marker line in the srcsrv stream.
    MissingTerminationLine,
    /// Missing = in a variable line in the srcsrv stream.
    MissingEquals,
    /// Missing closing % in a srcsrv variable use.
    MissingPercent,
    /// Expected ( after the named function in a srcsrv variable.
    MissingOpeningParen(String),
    /// Could not find the closing ) for the named function in a srcsrv
    /// variable.
    MissingClosingParen(String),
}

/// The mathematical shape of a [`ParseError`], over character sequences.
pub enum ParseErrorView {
    InvalidUtf8,
    UnexpectedEof,
    UnrecognizedVersion(Seq<char>),
    MissingVersion,
    MissingIniSection,
    MissingVariablesSection,
    MissingSrcSrvTrgField,
    MissingSourceFilesSection,
    MissingTerminationLine,
    MissingEquals,
    MissingPercent,
    MissingOpeningParen(Seq<char>),
    MissingClosingParen(Seq<char>),
}

impl View for ParseError {
    type V = ParseErrorView;

    open spec fn view(&self) -> ParseErrorView {
        match self {
            ParseError::InvalidUtf8 => ParseErrorView::InvalidUtf8,
            ParseError::UnexpectedEof => ParseErrorView::UnexpectedEof,
            ParseError::UnrecognizedVersion(v) => ParseErrorView::UnrecognizedVersion(v@),
            ParseError::MissingVersion => ParseErrorView::MissingVersion,
            ParseError::MissingIniSection => ParseErrorView::MissingIniSection,
            ParseError::MissingVariablesSection => ParseErrorView::MissingVariablesSection,
            ParseError::MissingSrcSrvTrgField => ParseErrorView::MissingSrcSrvTrgField,
            ParseError::MissingSourceFilesSection => ParseErrorView::MissingSourceFilesSection,
            ParseError::MissingTerminationLine => ParseErrorView::MissingTerminationLine,
            ParseError::MissingEquals => ParseErrorView::MissingEquals,
            ParseError::MissingPercent => ParseErrorView::MissingPercent,
            ParseError::MissingOpeningParen(n) => ParseErrorView::MissingOpeningParen(n@),
            ParseError::MissingClosingParen(n) => ParseErrorView::MissingClosingParen(n@),
        }
    }
}

/// An enum for errors that can occur when looking up the
/// [`SourceRetrievalMethod`](crate::SourceRetrievalMethod) for a file,
/// and when evaluating the variables.
#[derive(Debug, Clone, PartialEq, Eq)]
#[non_exhaustive]
pub enum EvalError {
    /// Encountered recursion while evaluating the named srcsrv variable.
    Recursion(String),
    /// Could not resolve the named srcsrv variable.
    UnknownVariable(String),
}

/// The mathematical shape of an [`EvalError`], over character sequences.
pub enum EvalErrorView {
    Recursion(Seq<char>),
    UnknownVariable(Seq<char>),
}

impl View for EvalError {
    type V = EvalErrorView;

    open spec fn view(&self) -> EvalErrorView {
        match self {
            EvalError::Recursion(n) => EvalErrorView::Recursion(n@),
            EvalError::UnknownVariable(n) => EvalErrorView::UnknownVariable(n@),
        }
    }
}

} // verus!
