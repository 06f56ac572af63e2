//! Response classification.
//!
//! A completed HTTP response is classified by its status code: a success
//! (2xx) yields a `Success` outcome labelled with the page title (or a fixed
//! placeholder), any other status yields an `HttpFailure` outcome labelled
//! with the status's canonical reason text (or a numeric fallback).
//! Transport-level failures never reach classification; they are handled by
//! the orchestrator as per-URL diagnostics.

use crate::scraper::{extract_title, title_spec};
use vstd::prelude::*;
use vstd::string::{StrSliceExecFns, StringExecFns};

verus! {

/// Result of one classified HTTP response.
pub enum RequestResponse {
    Success { label: String },
    HttpFailure { reason: String },
}

impl RequestResponse {
    /// Whether this outcome records a successful (2xx) response.
    pub open spec fn is_success(self) -> bool {
        self is Success
    }

    /// The human-readable label of the outcome: the title of a successful
    /// response, or the failure reason otherwise.
    pub open spec fn label_view(self) -> Seq<char> {
        match self {
            RequestResponse::Success { label } => label@,
            RequestResponse::HttpFailure { reason } => reason@,
        }
    }

    /// Renders the outcome's label.
    pub fn text(&self) -> (r: String)
        ensures
            r@ == self.label_view(),
    {
        match self {
            RequestResponse::Success { label } => label.clone(),
            RequestResponse::HttpFailure { reason } => reason.clone(),
        }
    }
}

impl Clone for RequestResponse {
    /// Clones the outcome, keeping the variant and the label.
    fn clone(&self) -> (r: Self)
        ensures
            r == *self,
    {
        match self {
            RequestResponse::Success { label } => RequestResponse::Success { label: label.clone() },
            RequestResponse::HttpFailure { reason } => RequestResponse::HttpFailure {
                reason: reason.clone(),
            },
        }
    }
}

/// Whether a status code counts as a success.
pub open spec fn is_success_code(code: u16) -> bool {
    200 <= code < 300
}

/// The character of one decimal digit.
pub open spec fn digit_char(d: int) -> char {
    if d == 0 {
        '0'
    } else if d == 1 {
        '1'
    } else if d == 2 {
        '2'
    } else if d == 3 {
        '3'
    } else if d == 4 {
        '4'
    } else if d == 5 {
        '5'
    } else if d == 6 {
        '6'
    } else if d == 7 {
        '7'
    } else if d == 8 {
        '8'
    } else {
        '9'
    }
}

/// The decimal rendering of `n`, most significant digit first, without
/// leading zeros (the single digit `0` for zero).
pub open spec fn dec_digits(n: int) -> Seq<char>
    decreases n
        when n >= 0
{
    if n < 10 {
        seq![digit_char(n)]
    } else {
        dec_digits(n / 10).push(digit_char(n % 10))
    }
}

/// Renders `n` in decimal.
fn u16_to_dec(n: u16) -> (s: String)
    ensures
        s@ == dec_digits(n as int),
    decreases n,
{
    let digits = "0123456789";
    proof {
        reveal_strlit("0123456789");
    }
    if n < 10 {
        let d = digits.substring_ascii(n as usize, n as usize + 1);
        assert(d@ =~= seq![digit_char(n as int)]);
        d.to_owned()
    } else {
        let mut s = u16_to_dec(n / 10);
        let m = n % 10;
        let d = digits.substring_ascii(m as usize, m as usize + 1);
        assert(d@ =~= seq![digit_char(n as int % 10)]);
        s.append(d);
        assert(s@ =~= dec_digits(n as int / 10).push(digit_char(n as int % 10)));
        s
    }
}

/// The canonical reason text of a status code, where one is defined: what
/// `canonical_reason` on the status type of the HTTP stack returns for it.
pub uninterp spec fn canonical_reason_spec(code: u16) -> Option<Seq<char>>;

/// Relies on `http::StatusCode::canonical_reason` (the status type that
/// reqwest re-exports): a pure table lookup from the numeric code to its
/// standard reason phrase, `None` for a code without one or outside the
/// valid status range.
#[verifier::external_body]
fn canonical_reason_of(code: u16) -> (r: Option<String>)
    ensures
        match r {
            Some(s) => canonical_reason_spec(code) == Some(s@),
            None => canonical_reason_spec(code) is None,
        },
{
    match http::StatusCode::from_u16(code) {
        Ok(status) => status.canonical_reason().map(|s| s.to_string()),
        Err(_) => None,
    }
}

/// The failure label of a status code: its canonical reason text, or the
/// rendering `HTTP <code>` where none is defined.
pub open spec fn failure_reason_spec(code: u16) -> Seq<char> {
    match canonical_reason_spec(code) {
        Some(s) => s,
        None => "HTTP "@ + dec_digits(code as int),
    }
}

/// Renders the failure label of a status code.
pub fn http_failure_reason(code: u16) -> (r: String)
    ensures
        r@ == failure_reason_spec(code),
{
    match canonical_reason_of(code) {
        Some(s) => s,
        None => {
            let mut s = "HTTP ".to_owned();
            let d = u16_to_dec(code);
            s.append(d.as_str());
            s
        },
    }
}

/// The success label of a response body: its title, or a fixed placeholder
/// where the document has none.
pub open spec fn success_label_spec(html: Seq<char>) -> Seq<char> {
    match title_spec(html) {
        Some(t) => t,
        None => "No title found"@,
    }
}

/// Renders the success label of a response body.
pub fn success_label(html: &str) -> (r: String)
    ensures
        r@ == success_label_spec(html@),
{
    match extract_title(html) {
        Some(t) => t,
        None => "No title found".to_owned(),
    }
}

/// The label a classified response carries, for any status and body.
pub open spec fn outcome_label_spec(code: u16, body: Seq<char>) -> Seq<char> {
    if is_success_code(code) {
        success_label_spec(body)
    } else {
        failure_reason_spec(code)
    }
}

/// Classifies a completed HTTP response: a 2xx status yields `Success` with
/// the body's title (or the placeholder), any other status yields
/// `HttpFailure` with the status's reason text (or the numeric fallback).
pub fn classify_response(code: u16, body: &str) -> (r: RequestResponse)
    ensures
        r.is_success() == is_success_code(code),
        r.label_view() == outcome_label_spec(code, body@),
{
    if 200 <= code && code < 300 {
        RequestResponse::Success { label: success_label(body) }
    } else {
        RequestResponse::HttpFailure { reason: http_failure_reason(code) }
    }
}

} // verus!
