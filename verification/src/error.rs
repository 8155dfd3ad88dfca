//! Error codes and the application error type.

use std::io;
use std::path::PathBuf;
use vstd::prelude::*;

use crate::json::json_error_text;
use crate::paths::path_debug_text;

verus! {

/// Error codes (kept one-to-one with the front end's message table).
#[derive(Debug, Clone, Copy, PartialEq, Eq, Structural)]
pub enum ErrorCode {
    InvalidPetId,
    ZipSlip,
    TooLarge,
    BadRequest,
    Network,
    Io,
    Platform,
    Serialization,
}

/// The stable identifier of each code.
pub open spec fn code_str(code: ErrorCode) -> Seq<char> {
    match code {
        ErrorCode::InvalidPetId => "invalid_pet_id"@,
        ErrorCode::ZipSlip => "zip_slip"@,
        ErrorCode::TooLarge => "too_large"@,
        ErrorCode::BadRequest => "bad_request"@,
        ErrorCode::Network => "network"@,
        ErrorCode::Io => "io"@,
        ErrorCode::Platform => "platform"@,
        ErrorCode::Serialization => "serialization"@,
    }
}

impl ErrorCode {
    /// Stable string identifier, for serialization, logs and front-end matching.
    pub fn as_str(self) -> (s: &'static str)
        ensures
            s@ == code_str(self),
    {
        match self {
            ErrorCode::InvalidPetId => "invalid_pet_id",
            ErrorCode::ZipSlip => "zip_slip",
            ErrorCode::TooLarge => "too_large",
            ErrorCode::BadRequest => "bad_request",
            ErrorCode::Network => "network",
            ErrorCode::Io => "io",
            ErrorCode::Platform => "platform",
            ErrorCode::Serialization => "serialization",
        }
    }
}

#[verifier::external_type_specification]
#[verifier::external_body]
pub struct ExIoError(io::Error);

#[verifier::external_type_specification]
#[verifier::external_body]
pub struct ExHttpError(reqwest::Error);

/// The `Display` text of an I/O error. Nothing is stated of it.
#[verifier::external_body]
pub(crate) fn io_error_text(e: &io::Error) -> String {
    e.to_string()
}

/// The `Display` text of a `reqwest` error. Nothing is stated of it.
#[verifier::external_body]
fn http_error_text(e: &reqwest::Error) -> String {
    e.to_string()
}

/// Prefix of the message for an invalid pet id.
pub open spec fn invalid_pet_id_prefix() -> Seq<char> {
    "宠物 id 含非法字符或为空: "@
}

/// Prefix of the message for a path that escapes its root.
pub open spec fn zip_slip_prefix() -> Seq<char> {
    "路径逃逸出允许目录: "@
}

/// Application error: an error code plus a human-readable message.
#[derive(Debug, Clone, PartialEq, Eq)]
pub struct AppError {
    pub code: ErrorCode,
    pub message: String,
}

impl AppError {
    pub fn new(code: ErrorCode, message: String) -> (e: AppError)
        ensures
            e.code == code,
            e.message@ == message@,
    {
        AppError { code, message }
    }

    /// The pet id is empty or holds a character outside the allowed set.
    pub fn invalid_pet_id(id: &str) -> (e: AppError)
        ensures
            e.code == ErrorCode::InvalidPetId,
            e.message@ == invalid_pet_id_prefix() + id@,
    {
        let mut message = String::from_str("宠物 id 含非法字符或为空: ");
        message.append(id);
        AppError::new(ErrorCode::InvalidPetId, message)
    }

    /// An I/O failure, described by the error's own text.
    pub fn from_io(e: io::Error) -> (r: AppError)
        ensures
            r.code == ErrorCode::Io,
    {
        AppError::new(ErrorCode::Io, io_error_text(&e))
    }

    /// A JSON (de)serialization failure, described by the error's own text.
    pub fn from_json(e: serde_json::Error) -> (r: AppError)
        ensures
            r.code == ErrorCode::Serialization,
    {
        AppError::new(ErrorCode::Serialization, json_error_text(&e))
    }

    /// A failed HTTP request, described by the error's own text.
    pub fn from_http(e: reqwest::Error) -> (r: AppError)
        ensures
            r.code == ErrorCode::Network,
    {
        AppError::new(ErrorCode::Network, http_error_text(&e))
    }

    /// The error as shown to people: `[code] message`.
    pub fn to_string(&self) -> (s: String)
        ensures
            s@ == "["@ + code_str(self.code) + "] "@ + self.message@,
    {
        let mut s = String::from_str("[");
        s.append(self.code.as_str());
        s.append("] ");
        s.append(self.message.as_str());
        s
    }

    /// A path escapes the directory it must stay in. The message is the
    /// prefix followed by the path's `Debug` rendering.
    pub fn zip_slip(path: &PathBuf) -> (e: AppError)
        ensures
            e.code == ErrorCode::ZipSlip,
            e.message@.len() >= zip_slip_prefix().len(),
            e.message@.subrange(0, zip_slip_prefix().len() as int) == zip_slip_prefix(),
    {
        let mut message = String::from_str("路径逃逸出允许目录: ");
        let shown = path_debug_text(path);
        message.append(shown.as_str());
        AppError::new(ErrorCode::ZipSlip, message)
    }
}

} // verus!
