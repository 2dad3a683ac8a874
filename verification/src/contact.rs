//! What the contact endpoint takes and answers.

use vstd::prelude::*;
use vstd::string::*;

verus! {

/// The identity of a client whose address is not known.
pub const UNKNOWN_CLIENT: &'static str = "unknown";

/// The answer to a client that has used up the short window.
pub const MINUTE_EXHAUSTED: &'static str =
    "Demasiadas solicitudes por minuto. Intenta de nuevo en 1 minuto.";

/// The answer to a client that has used up the long window only.
pub const HALF_DAY_EXHAUSTED: &'static str =
    "Has alcanzado el límite máximo de solicitudes por 12 horas. Intenta de nuevo más tarde.";

/// The answer to a refused client with room left in both windows.
pub const TOO_MANY_REQUESTS: &'static str = "Demasiadas solicitudes. Intenta de nuevo más tarde.";

/// When a refused client may try again.
pub const RETRY_AFTER: &'static str = "60s";

/// The answer to a client whose request was passed on.
pub const REQUEST_SENT: &'static str = "Solicitud de contacto enviada exitosamente";

/// The answer to a client whose request could not be passed on.
pub const REQUEST_FAILED: &'static str = "Error al procesar la solicitud de contacto";

/// A contact request as a client sends it.
#[derive(Debug)]
pub struct ContactRequest {
    pub name: String,
    pub company: String,
    pub email: String,
    pub service: String,
    pub message: String,
}

/// The answer to a request that was let through.
#[derive(Debug)]
pub struct ContactResponse {
    pub success: bool,
    pub message: String,
    /// What is left in the short and in the long window.
    pub remaining_requests: Option<(usize, usize)>,
}

/// The answer to a request that was refused.
#[derive(Debug)]
pub struct RateLimitResponse {
    pub success: bool,
    pub message: String,
    /// What is left in the short and in the long window.
    pub remaining_requests: (usize, usize),
    pub retry_after: Option<String>,
}

/// The identity under which a client is counted: its address, or
/// `UNKNOWN_CLIENT` where there is none.
pub fn client_identity(address: Option<&str>) -> (identity: String)
    ensures
        identity@ == match address {
            Some(text) => text@,
            None => UNKNOWN_CLIENT@,
        },
{
    match address {
        Some(text) => text.to_owned(),
        None => UNKNOWN_CLIENT.to_owned(),
    }
}

/// The message for a refused client, by what is left: the short window is
/// named where it is used up, else the long one where that is.
pub open spec fn denial_text(remaining: (usize, usize)) -> Seq<char> {
    if remaining.0 == 0 {
        MINUTE_EXHAUSTED@
    } else if remaining.1 == 0 {
        HALF_DAY_EXHAUSTED@
    } else {
        TOO_MANY_REQUESTS@
    }
}

/// The message for a refused client with `remaining` left.
pub fn denial_message(remaining: (usize, usize)) -> (message: &'static str)
    ensures
        message@ == denial_text(remaining),
{
    if remaining.0 == 0 {
        MINUTE_EXHAUSTED
    } else if remaining.1 == 0 {
        HALF_DAY_EXHAUSTED
    } else {
        TOO_MANY_REQUESTS
    }
}

impl RateLimitResponse {
    /// The answer to a client that was refused with `remaining` left.
    pub fn denied(remaining: (usize, usize)) -> (response: Self)
        ensures
            !response.success,
            response.message@ == denial_text(remaining),
            response.remaining_requests == remaining,
            response.retry_after matches Some(text) && text@ == RETRY_AFTER@,
    {
        RateLimitResponse {
            success: false,
            message: denial_message(remaining).to_owned(),
            remaining_requests: remaining,
            retry_after: Some(RETRY_AFTER.to_owned()),
        }
    }
}

impl ContactResponse {
    /// The answer to a client whose request was passed on, with `remaining`
    /// left.
    pub fn delivered(remaining: (usize, usize)) -> (response: Self)
        ensures
            response.success,
            response.message@ == REQUEST_SENT@,
            response.remaining_requests == Some(remaining),
    {
        ContactResponse {
            success: true,
            message: REQUEST_SENT.to_owned(),
            remaining_requests: Some(remaining),
        }
    }

    /// The answer to a client whose request was let through but could not
    /// be passed on.
    pub fn failed() -> (response: Self)
        ensures
            !response.success,
            response.message@ == REQUEST_FAILED@,
            response.remaining_requests is None,
    {
        ContactResponse {
            success: false,
            message: REQUEST_FAILED.to_owned(),
            remaining_requests: None,
        }
    }
}

} // verus!
