//! The closed set of error kinds shared by the whole library, and the error
//! value that every fallible operation returns.

use vstd::prelude::*;

verus! {

/// One tag per failure kind the library can report.
#[derive(Debug, Clone, Copy, PartialEq, Eq, Structural)]
pub enum ErrorCode {
    Io,
    Json,
    InvalidState,
    AppNotFound,
    ProfileNotFound,
    Permission,
    InstallPath,
    MissingLauncher,
    TargetNotFound,
}

/// The short text label of an error kind, as shown to users.
pub open spec fn code_label(c: ErrorCode) -> Seq<char> {
    match c {
        ErrorCode::Io => "io_error"@,
        ErrorCode::Json => "json_error"@,
        ErrorCode::InvalidState => "invalid_state"@,
        ErrorCode::AppNotFound => "app_not_found"@,
        ErrorCode::ProfileNotFound => "profile_not_found"@,
        ErrorCode::Permission => "permission_error"@,
        ErrorCode::InstallPath => "install_path_error"@,
        ErrorCode::MissingLauncher => "missing_launcher"@,
        ErrorCode::TargetNotFound => "target_not_found"@,
    }
}

impl ErrorCode {
    /// Stable text label for this kind.
    pub fn label(&self) -> (r: &'static str)
        ensures
            r@ == code_label(*self),
    {
        match self {
            ErrorCode::Io => "io_error",
            ErrorCode::Json => "json_error",
            ErrorCode::InvalidState => "invalid_state",
            ErrorCode::AppNotFound => "app_not_found",
            ErrorCode::ProfileNotFound => "profile_not_found",
            ErrorCode::Permission => "permission_error",
            ErrorCode::InstallPath => "install_path_error",
            ErrorCode::MissingLauncher => "missing_launcher",
            ErrorCode::TargetNotFound => "target_not_found",
        }
    }
}

/// An error kind together with a message naming the offending alias,
/// profile or key.
#[derive(Debug, Clone)]
pub struct CoreError {
    pub code: ErrorCode,
    pub message: String,
}

impl CoreError {
    pub fn new(code: ErrorCode, message: String) -> (r: Self)
        ensures
            r.code == code,
            r.message == message,
    {
        CoreError { code, message }
    }

    /// The one-line rendering `<kind>: <message>` that front ends display.
    pub fn display_text(&self) -> (r: String)
        ensures
            r@ == code_label(self.code) + ": "@ + self.message@,
    {
        let mut out = self.code.label().to_owned();
        out.append(": ");
        out.append(self.message.as_str());
        out
    }
}

} // verus!
