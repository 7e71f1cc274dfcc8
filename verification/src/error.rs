//! The error type of every fallible operation, and its wire form.
use vstd::prelude::*;
use crate::text::owned;

verus! {

/// What went wrong. `User` errors carry a stable code for the front end; the
/// other variants carry the message of a lower-level failure of their kind.
#[derive(Debug)]
pub enum AppError {
    User { code: &'static str, message: String, detail: Option<String> },
    Io(String),
    Json(String),
    Yaml(String),
    Url(String),
    Http(String),
    Keyring(String),
}

/// The shape in which an error is handed to the front end.
#[derive(Debug)]
pub struct WireError {
    pub code: &'static str,
    pub message: String,
    pub detail: Option<String>,
}

pub open spec fn opt_view(o: Option<String>) -> Option<Seq<char>> {
    match o {
        Some(s) => Some(s@),
        None => None,
    }
}

/// `e` is a user error with this code and message and no detail.
pub open spec fn is_user_error(e: AppError, code: Seq<char>, message: Seq<char>) -> bool {
    e matches AppError::User { code: c, message: m, detail: None } && c@ == code && m@ == message
}

/// `e` is a user error with this code, message and detail.
pub open spec fn is_detailed_error(
    e: AppError,
    code: Seq<char>,
    message: Seq<char>,
    detail: Seq<char>,
) -> bool {
    e matches AppError::User { code: c, message: m, detail: Some(d) } && c@ == code && m@
        == message && d@ == detail
}

/// The stable code of each kind of error.
pub open spec fn code_of(e: AppError) -> Seq<char> {
    match e {
        AppError::User { code, .. } => code@,
        AppError::Io(_) => "io_error"@,
        AppError::Json(_) => "json_error"@,
        AppError::Yaml(_) => "yaml_error"@,
        AppError::Url(_) => "url_error"@,
        AppError::Http(_) => "network_error"@,
        AppError::Keyring(_) => "keychain_error"@,
    }
}

/// The human-readable message of an error (what its `Display` shows).
pub open spec fn message_of(e: AppError) -> Seq<char> {
    match e {
        AppError::User { message, .. } => message@,
        AppError::Io(m) => m@,
        AppError::Json(m) => m@,
        AppError::Yaml(m) => m@,
        AppError::Url(m) => m@,
        AppError::Http(m) => m@,
        AppError::Keyring(m) => m@,
    }
}

impl AppError {
    /// A user error without detail.
    pub fn user(code: &'static str, message: String) -> (res: Self)
        ensures
            res == (AppError::User { code, message, detail: None }),
    {
        AppError::User { code, message, detail: None }
    }

    /// A user error with a detail, usually the message of the failure that caused it.
    pub fn with_detail(code: &'static str, message: String, detail: String) -> (res: Self)
        ensures
            res == (AppError::User { code, message, detail: Some(detail) }),
    {
        AppError::User { code, message, detail: Some(detail) }
    }

    /// The stable code of the error.
    pub fn code(&self) -> (res: &'static str)
        ensures
            res@ == code_of(*self),
    {
        match self {
            AppError::User { code, .. } => code,
            AppError::Io(_) => "io_error",
            AppError::Json(_) => "json_error",
            AppError::Yaml(_) => "yaml_error",
            AppError::Url(_) => "url_error",
            AppError::Http(_) => "network_error",
            AppError::Keyring(_) => "keychain_error",
        }
    }

    /// The message of the error, as its `Display` would show it.
    pub fn message(&self) -> (res: String)
        ensures
            res@ == message_of(*self),
    {
        match self {
            AppError::User { message, .. } => owned(message.as_str()),
            AppError::Io(m) => owned(m.as_str()),
            AppError::Json(m) => owned(m.as_str()),
            AppError::Yaml(m) => owned(m.as_str()),
            AppError::Url(m) => owned(m.as_str()),
            AppError::Http(m) => owned(m.as_str()),
            AppError::Keyring(m) => owned(m.as_str()),
        }
    }

    /// The form in which the error is sent to the front end: its code, its
    /// message, and the detail that only user errors carry.
    pub fn wire(&self) -> (res: WireError)
        ensures
            res.code@ == code_of(*self),
            res.message@ == message_of(*self),
            opt_view(res.detail) == (match *self {
                AppError::User { detail, .. } => opt_view(detail),
                _ => None,
            }),
    {
        let detail = match self {
            AppError::User { detail: Some(d), .. } => Some(owned(d.as_str())),
            _ => None,
        };
        WireError { code: self.code(), message: self.message(), detail }
    }
}

} // verus!
