//! Discord API error shapes and response checks shared by the API modules.
use vstd::prelude::*;

use crate::invite::lemma_trim_noop;
use crate::text::{
    all_digits, all_digits_in, chars_of, decimal, is_ascii_digit, lemma_decimal_digits, string_of,
    trim, trim_chars,
};

verus! {

/// Discord's standard error body: `{"code": 10006, "message": "Unknown Invite"}`.
#[derive(Debug, PartialEq, Eq)]
pub struct DiscordError {
    pub code: i64,
    pub message: String,
}

/// Why an API response is not a success.
#[derive(Debug, PartialEq, Eq)]
pub enum ApiError {
    /// The body held Discord's error shape.
    Discord { code: i64, message: String },
    /// Any other failure, by HTTP status code.
    Status(u16),
}

/// HTTP 2xx.
pub open spec fn is_success(status: u16) -> bool {
    200 <= status <= 299
}

/// The error that a failed response with this status and decoded body
/// stands for.
pub open spec fn api_error_of(status: u16, body: Option<DiscordError>) -> ApiError {
    match body {
        Some(e) => ApiError::Discord { code: e.code, message: e.message },
        None => ApiError::Status(status),
    }
}

/// Check a response for success; on failure, the decoded Discord error
/// code and message when the body held one, else the status.
/// `body` is the decoded error body of the response, if any.
pub fn ensure_success(status: u16, body: Option<DiscordError>) -> (r: Result<(), ApiError>)
    ensures
        r is Ok <==> is_success(status),
        r matches Err(e) ==> e == api_error_of(status, body),
{
    if 200 <= status && status <= 299 {
        return Ok(());
    }
    match body {
        Some(e) => Err(ApiError::Discord { code: e.code, message: e.message }),
        None => Err(ApiError::Status(status)),
    }
}

/// A response succeeds exactly when its status is 2xx; a failure carries
/// Discord's own code and message when the body held them, and the status
/// otherwise.
pub proof fn lemma_api_error_details(status: u16, body: Option<DiscordError>)
    ensures
        is_success(status) <==> 200 <= status < 300,
        body matches Some(e) ==> api_error_of(status, body) == (ApiError::Discord {
            code: e.code,
            message: e.message,
        }),
        body is None ==> api_error_of(status, body) == ApiError::Status(status),
{
}

/// The numeric Discord ID held by `raw` (surrounding whitespace ignored).
pub open spec fn numeric_id_of(raw: Seq<char>) -> Option<Seq<char>> {
    let t = trim(raw);
    if t.len() > 0 && all_digits(t) {
        Some(t)
    } else {
        None
    }
}

/// The trimmed ID, when `raw` is a non-empty run of ASCII digits.
pub fn numeric_id(raw: &str) -> (r: Option<String>)
    ensures
        match r {
            Some(id) => numeric_id_of(raw@) == Some(id@),
            None => numeric_id_of(raw@) is None,
        },
{
    let t = trim_chars(&chars_of(raw));
    if t.len() > 0 && all_digits_in(&t) {
        Some(string_of(&t))
    } else {
        None
    }
}

/// An ID is accepted exactly when, trimmed, it is a non-empty run of ASCII
/// digits, and it is then given back trimmed; a decimal numeral is always
/// accepted as it is.
pub proof fn lemma_numeric_id(raw: Seq<char>, n: nat)
    ensures
        numeric_id_of(raw) matches Some(id) ==> id == trim(raw) && id.len() > 0 && forall|i: int|
            0 <= i < id.len() ==> is_ascii_digit(#[trigger] id[i]),
        (trim(raw).len() > 0 && forall|i: int|
            0 <= i < trim(raw).len() ==> is_ascii_digit(#[trigger] trim(raw)[i])) ==> numeric_id_of(
            raw,
        ) == Some(trim(raw)),
        numeric_id_of(decimal(n)) == Some(decimal(n)),
{
    lemma_decimal_digits(n);
    lemma_trim_noop(decimal(n));
}

} // verus!
