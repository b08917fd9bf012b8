//! Structured API errors.

use vstd::prelude::*;

verus! {

/// Machine-readable error category carried by every [`ApiError`].
#[derive(Debug, Clone, Copy, PartialEq, Eq, Structural)]
pub enum ApiErrorCode {
    /// Input validation failed.
    ValidationError,
    /// The requested resource does not exist.
    NotFound,
    /// Unexpected internal failure.
    Internal,
    /// SSH related failure.
    SshError,
    /// Configuration failure.
    ConfigError,
    /// Launching an external application failed.
    ExternalApp,
}

/// Name of a code, as its text form spells it.
pub open spec fn code_text(c: ApiErrorCode) -> Seq<char> {
    match c {
        ApiErrorCode::ValidationError => "ValidationError"@,
        ApiErrorCode::NotFound => "NotFound"@,
        ApiErrorCode::Internal => "Internal"@,
        ApiErrorCode::SshError => "SshError"@,
        ApiErrorCode::ConfigError => "ConfigError"@,
        ApiErrorCode::ExternalApp => "ExternalApp"@,
    }
}

impl ApiErrorCode {
    /// The code's name.
    pub fn name(&self) -> (r: &'static str)
        ensures
            r@ == code_text(*self),
    {
        match self {
            ApiErrorCode::ValidationError => "ValidationError",
            ApiErrorCode::NotFound => "NotFound",
            ApiErrorCode::Internal => "Internal",
            ApiErrorCode::SshError => "SshError",
            ApiErrorCode::ConfigError => "ConfigError",
            ApiErrorCode::ExternalApp => "ExternalApp",
        }
    }
}

/// Text form of an error: `<code>: <message>`.
pub open spec fn error_text(code: ApiErrorCode, message: Seq<char>) -> Seq<char> {
    code_text(code) + ": "@ + message
}

/// Structured API error: a code plus a human-readable message.
#[derive(Debug, Clone)]
pub struct ApiError {
    pub code: ApiErrorCode,
    pub message: String,
}

impl ApiError {
    /// The error's text: its code's name, a colon, a space and its message.
    pub fn to_string(&self) -> (r: String)
        ensures
            r@ == error_text(self.code, self.message@),
    {
        let mut s = String::from_str(self.code.name());
        s.append(": ");
        s.append(self.message.as_str());
        s
    }

    /// Error of category `ValidationError` with the given message.
    pub fn validation(msg: String) -> (r: Self)
        ensures
            r.code == ApiErrorCode::ValidationError,
            r.message@ == msg@,
    {
        ApiError { code: ApiErrorCode::ValidationError, message: msg }
    }

    /// Error of category `NotFound` with the given message.
    pub fn not_found(msg: String) -> (r: Self)
        ensures
            r.code == ApiErrorCode::NotFound,
            r.message@ == msg@,
    {
        ApiError { code: ApiErrorCode::NotFound, message: msg }
    }

    /// Error of category `Internal` with the given message.
    pub fn internal(msg: String) -> (r: Self)
        ensures
            r.code == ApiErrorCode::Internal,
            r.message@ == msg@,
    {
        ApiError { code: ApiErrorCode::Internal, message: msg }
    }

    /// Error of category `SshError` with the given message.
    pub fn ssh(msg: String) -> (r: Self)
        ensures
            r.code == ApiErrorCode::SshError,
            r.message@ == msg@,
    {
        ApiError { code: ApiErrorCode::SshError, message: msg }
    }

    /// Error of category `ExternalApp` with the given message.
    pub fn external_app(msg: String) -> (r: Self)
        ensures
            r.code == ApiErrorCode::ExternalApp,
            r.message@ == msg@,
    {
        ApiError { code: ApiErrorCode::ExternalApp, message: msg }
    }
}

} // verus!
