//! Request errors and the response envelope's status, message and headers.

use vstd::prelude::*;

verus! {

/// A failed request: `Expected` is surfaced verbatim with its status, `Other` is an
/// internal failure answered with status 500.
#[derive(Clone, Debug)]
pub enum RequestError {
    Expected { status: u16, message: String },
    Other { message: String },
}

/// The decimal digits of `n`.
pub open spec fn decimal_text(n: nat) -> Seq<char>
    decreases n,
{
    if n < 10 {
        seq![digit_char(n)]
    } else {
        decimal_text(n / 10) + seq![digit_char(n % 10)]
    }
}

pub open spec fn digit_char(d: nat) -> char {
    ((d + 48) as u32) as char
}

/// The decimal digits of `n`.
pub fn decimal(n: u64) -> (r: String)
    ensures
        r@ == decimal_text(n as nat),
    decreases n,
{
    let d = (n % 10) as u8;
    let c = (d + 48) as char;
    let mut v: Vec<char> = Vec::new();
    v.push(c);
    let last = crate::text::from_chars(v.as_slice());
    assert(last@ == seq![digit_char((n % 10) as nat)]);
    if n < 10 {
        last
    } else {
        let head = decimal(n / 10);
        head.concat(last.as_str())
    }
}



/// An expected failure with `status` and `message`.
pub fn expected(status: u16, message: &str) -> (r: RequestError)
    ensures
        r matches RequestError::Expected { status: s, message: m } && s == status && m@
            == message@,
{
    RequestError::Expected { status, message: String::from_str(message) }
}

/// An internal failure with `message`.
pub fn internal(message: &str) -> (r: RequestError)
    ensures
        r matches RequestError::Other { message: m } && m@ == message@,
{
    RequestError::Other { message: String::from_str(message) }
}

/// The response-envelope layer of the request pipeline.
pub struct ExecuteWrapperLayer;

impl ExecuteWrapperLayer {
    /// The status and error message a failed request is answered with.
    pub fn error_reply(err: &RequestError) -> (r: (u16, String))
        ensures
            match err {
                RequestError::Expected { status, message } => r.0 == *status && r.1@ == message@,
                RequestError::Other { message } => r.0 == 500 && r.1@ == "Unexpected error: "@
                    + message@,
            },
    {
        match err {
            RequestError::Expected { status, message } => (*status, message.clone()),
            RequestError::Other { message } => (
                500,
                String::from_str("Unexpected error: ").concat(message.as_str()),
            ),
        }
    }

    /// The `Cache-Control` header value for a cache time in seconds.
    pub fn cache_control(http_cache_time: u64) -> (r: String)
        ensures
            r@ == "max-age="@ + decimal_text(http_cache_time as nat),
    {
        let d = decimal(http_cache_time);
        String::from_str("max-age=").concat(d.as_str())
    }
}

} // verus!
