//! Errors raised while a declarative value is resolved into a concrete
//! string, and while a request template is built.

use crate::text::push_char;
use vstd::prelude::*;

verus! {

/// Everything that can go wrong between a configured expression and the
/// concrete request it denotes.
#[derive(Debug, Clone)]
pub enum EvalError {
    /// A template ended right after a `$`.
    DollarAtEnd,
    /// A `$` was followed by something other than `$` or `{`.
    BadCharAfterDollar(char),
    /// A placeholder body contained `$` or `{`.
    BraceInPlaceholder(char),
    /// A `${` was never closed by `}`.
    UnterminatedPlaceholder,
    /// A placeholder body did not begin with the resource prefix.
    BadPlaceholderPrefix(String),
    /// A placeholder named a resource that was never declared.
    UnknownResource(String),
    /// A resource's resolution transitively required itself.
    CyclicDependency,
    /// A response body that had to be read as text was not valid UTF-8.
    BodyNotUtf8,
    /// A response body that had to be parsed as JSON was not valid JSON.
    BodyNotJson,
    /// A JSON pointer matched nothing in the response body.
    PointerMissing,
    /// A format string did not contain exactly one `{}` marker.
    BadFormatString,
    /// A resolved header value contained bytes a header cannot carry.
    InvalidHeaderValue(String),
    /// Resolution recursed deeper than the configured bound.
    DepthExceeded,
}

/// Model of an [`EvalError`]: the same taxonomy over character sequences.
pub enum ErrModel {
    DollarAtEnd,
    BadCharAfterDollar(char),
    BraceInPlaceholder(char),
    UnterminatedPlaceholder,
    BadPlaceholderPrefix(Seq<char>),
    UnknownResource(Seq<char>),
    CyclicDependency,
    BodyNotUtf8,
    BodyNotJson,
    PointerMissing,
    BadFormatString,
    InvalidHeaderValue(Seq<char>),
    DepthExceeded,
}

/// The model of an error value.
pub open spec fn err_model(e: EvalError) -> ErrModel {
    match e {
        EvalError::DollarAtEnd => ErrModel::DollarAtEnd,
        EvalError::BadCharAfterDollar(c) => ErrModel::BadCharAfterDollar(c),
        EvalError::BraceInPlaceholder(c) => ErrModel::BraceInPlaceholder(c),
        EvalError::UnterminatedPlaceholder => ErrModel::UnterminatedPlaceholder,
        EvalError::BadPlaceholderPrefix(s) => ErrModel::BadPlaceholderPrefix(s@),
        EvalError::UnknownResource(s) => ErrModel::UnknownResource(s@),
        EvalError::CyclicDependency => ErrModel::CyclicDependency,
        EvalError::BodyNotUtf8 => ErrModel::BodyNotUtf8,
        EvalError::BodyNotJson => ErrModel::BodyNotJson,
        EvalError::PointerMissing => ErrModel::PointerMissing,
        EvalError::BadFormatString => ErrModel::BadFormatString,
        EvalError::InvalidHeaderValue(s) => ErrModel::InvalidHeaderValue(s@),
        EvalError::DepthExceeded => ErrModel::DepthExceeded,
    }
}

impl EvalError {
    /// A short human-readable description, for the shell to print.
    pub fn message(&self) -> String {
        let text = match self {
            EvalError::DollarAtEnd => "unexpected end of template after '$'",
            EvalError::BadCharAfterDollar(_) => (
            "unexpected character after '$', expected '$' or '{'"),
            EvalError::BraceInPlaceholder(_) => "placeholders cannot contain '$' or '{'",
            EvalError::UnterminatedPlaceholder => (
            "unexpected end of template inside a placeholder"),
            EvalError::BadPlaceholderPrefix(_) => "placeholder must start with 'resources.'",
            EvalError::UnknownResource(_) => "resource does not exist",
            EvalError::CyclicDependency => "cyclic dependency detected",
            EvalError::BodyNotUtf8 => "response body is not valid UTF-8",
            EvalError::BodyNotJson => "failed to deserialize response as JSON",
            EvalError::PointerMissing => "response does not contain the expected value",
            EvalError::BadFormatString => (
            "there has to be exactly one format specifier in a format string"),
            EvalError::InvalidHeaderValue(_) => "value is not a valid header value",
            EvalError::DepthExceeded => "resolution recursed too deeply",
        };
        let mut out = String::new();
        out.append(text);
        match self {
            EvalError::BadPlaceholderPrefix(s) | EvalError::UnknownResource(s)
                | EvalError::InvalidHeaderValue(s) => {
                push_char(&mut out, ':');
                push_char(&mut out, ' ');
                out.append(s.as_str());
            },
            EvalError::BadCharAfterDollar(c) | EvalError::BraceInPlaceholder(c) => {
                push_char(&mut out, ':');
                push_char(&mut out, ' ');
                push_char(&mut out, *c);
            },
            _ => {},
        }
        out
    }
}

} // verus!
