//! The session key as `mosh-server` printed it. Its text is never part of what the type
//! shows of itself.

use vstd::prelude::*;

use crate::text::{decimal, push_decimal, push_str};

verus! {

#[verifier::external_type_specification]
#[verifier::external_body]
pub struct ExUtf8Error(std::str::Utf8Error);

/// The printed session key (base64 of the 16 key bytes).
#[derive(Clone, PartialEq, Eq)]
pub struct SessionKey {
    text: String,
}

impl View for SessionKey {
    type V = Seq<char>;

    closed spec fn view(&self) -> Seq<char> {
        self.text@
    }
}

/// What the debug form of a key shows: its length, and that it is redacted.
pub open spec fn redacted_text(len: nat) -> Seq<char> {
    "SessionKey { len: "@ + decimal(len) + ", redacted: true }"@
}

impl SessionKey {
    /// The key as the server printed it.
    pub fn from_server_text(value: &str) -> (k: Self)
        ensures
            k@ == value@,
    {
        SessionKey { text: value.to_owned() }
    }

    /// The length of the key text in bytes (UTF-8).
    pub fn len(&self) -> (n: usize)
        ensures
            n == vstd::utf8::encode_utf8(self@).len() as usize,
    {
        self.text.as_str().len()
    }

    pub fn is_empty(&self) -> (b: bool)
        ensures
            b == (self@.len() == 0),
    {
        self.text.as_str().is_empty()
    }

    /// The key text. It was made from a `str`, so it is always valid UTF-8.
    pub fn as_str(&self) -> (r: Result<&str, std::str::Utf8Error>)
        ensures
            r is Ok && r->Ok_0@ == self@,
    {
        Ok(self.text.as_str())
    }

    /// The debug form: the length and a redaction mark, never the key.
    pub fn debug_text(&self) -> (s: String)
        ensures
            s@ == redacted_text((vstd::utf8::encode_utf8(self@).len() as usize) as nat),
    {
        let mut s = "SessionKey { len: ".to_owned();
        push_decimal(&mut s, self.len() as u64);
        push_str(&mut s, ", redacted: true }");
        s
    }
}

} // verus!
