//! JSON bodies: the value taken from a request body, and what can go wrong on
//! the way from the bytes of the body to that value.

use vstd::prelude::*;
use vstd::string::*;
use vstd::utf8::encode_utf8;
use vstd::utf8::valid_utf8;

verus! {

/// Why a request body gave no JSON value.
#[derive(Debug)]
pub struct JsonError {
    msg: String,
}

impl View for JsonError {
    type V = Seq<char>;

    /// The message of the error.
    closed spec fn view(&self) -> Seq<char> {
        self.msg@
    }
}

impl JsonError {
    /// An error with the given message.
    pub fn new(msg: &str) -> (out: Self)
        ensures
            out@ == msg@,
    {
        JsonError { msg: String::from_str(msg) }
    }

    /// The error for a body that could not be read.
    pub fn unreadable() -> (out: Self)
        ensures
            out@ == "Failed to read body"@,
    {
        JsonError::new("Failed to read body")
    }

    /// The error for a body that is no JSON text of the expected kind;
    /// `detail` says what the parser found.
    pub fn malformed(detail: &str) -> (out: Self)
        ensures
            out@ == "Failed to parse JSON: "@ + detail@,
    {
        let mut msg = String::from_str("Failed to parse JSON: ");
        msg.append(detail);
        JsonError { msg: msg }
    }

    /// The message of the error.
    pub fn message(&self) -> (out: &str)
        ensures
            out@ == self@,
    {
        self.msg.as_str()
    }

    /// The error as it is shown: its message after `JSON Error: `.
    pub fn to_string(&self) -> (out: String)
        ensures
            out@ == "JSON Error: "@ + self@,
    {
        let mut out = String::from_str("JSON Error: ");
        out.append(self.msg.as_str());
        out
    }
}

/// A value that was read from a JSON body.
#[derive(Debug)]
pub struct Json<T>(pub T);

/// `core::str::from_utf8`: the bytes as text where they are valid UTF-8, and
/// nothing where they are not. The text it gives is made of the very bytes it
/// was given.
#[verifier::external_body]
fn utf8_text(bytes: &[u8]) -> (out: Option<&str>)
    ensures
        out is Some <==> valid_utf8(bytes@),
        out matches Some(text) ==> encode_utf8(text@) == bytes@,
{
    match core::str::from_utf8(bytes) {
        Ok(text) => Some(text),
        Err(_) => None,
    }
}

/// The text of a request body: the body itself where it is valid UTF-8, and
/// an error otherwise.
pub fn body_text(body: &[u8]) -> (out: Result<&str, JsonError>)
    ensures
        match out {
            Ok(text) => valid_utf8(body@) && encode_utf8(text@) == body@,
            Err(e) => !valid_utf8(body@) && e@ == "Body is not valid UTF-8"@,
        },
{
    match utf8_text(body) {
        Some(text) => Ok(text),
        None => Err(JsonError::new("Body is not valid UTF-8")),
    }
}

} // verus!
