//! Errors of the service and the HTTP status each one is answered with.
use vstd::prelude::*;

verus! {

/// `reqwest::Error`, the failure of an HTTP request.
#[verifier::external_type_specification]
#[verifier::external_body]
pub struct ExHttpError(reqwest::Error);

/// Why a request to the service failed.
#[derive(Debug)]
pub enum AppError {
    /// An HTTP request to Dualis failed.
    Http(reqwest::Error),
    /// Dualis did not accept the login.
    LoginFailed(String),
    /// A Dualis page could not be read.
    Parse(String),
    /// The API key was missing or wrong.
    Unauthorized,
    /// The request's parameters are malformed.
    BadRequest(String),
}

/// The text `Unauthorized`.
pub open spec fn unauthorized_text() -> Seq<char> {
    seq!['U', 'n', 'a', 'u', 't', 'h', 'o', 'r', 'i', 'z', 'e', 'd']
}

impl AppError {
    /// The HTTP status code that answers this error.
    pub open spec fn status(&self) -> u16 {
        match self {
            AppError::Unauthorized => 401,
            AppError::BadRequest(_) => 400,
            _ => 502,
        }
    }

    /// The HTTP status code that answers this error: 401 for `Unauthorized`, 400 for
    /// `BadRequest`, 502 for failures on the Dualis side.
    pub fn status_code(&self) -> (code: u16)
        ensures
            code == self.status(),
    {
        match self {
            AppError::Unauthorized => 401,
            AppError::BadRequest(_) => 400,
            _ => 502,
        }
    }

    /// The message sent with the error: the text an error carries, `Unauthorized` for
    /// `Unauthorized`, and the request error's own description for `Http`.
    pub fn message(&self) -> (m: String)
        ensures
            self is Unauthorized ==> m@ == unauthorized_text(),
            self matches AppError::BadRequest(s) ==> m@ == s@,
            self matches AppError::LoginFailed(s) ==> m@ == s@,
            self matches AppError::Parse(s) ==> m@ == s@,
    {
        match self {
            AppError::Unauthorized => {
                let s = String::from_str("Unauthorized");
                proof {
                    reveal_strlit("Unauthorized");
                }
                s
            },
            AppError::BadRequest(s) => s.clone(),
            AppError::LoginFailed(s) => s.clone(),
            AppError::Parse(s) => s.clone(),
            AppError::Http(e) => http_error_text(e),
        }
    }
}

/// `reqwest::Error`'s `Display` text. It describes a failure that depends on the network,
/// so nothing is stated of it.
#[verifier::external_body]
fn http_error_text(e: &reqwest::Error) -> String {
    e.to_string()
}

} // verus!
