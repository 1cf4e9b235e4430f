//! The HTTP response record and its wire text: status line, the fixed
//! server and content headers, and the body.

use vstd::prelude::*;
use crate::render::{dec_digits, push_dec_u128, push_str_chars};

verus! {

pub enum StatusMessage {
    OkStatus,
    Custom(u32, String),
}

/// A response under construction: status, extra headers (kept but not
/// written to the wire), declared body length and body text.
pub struct Response {
    pub headers: Vec<(String, String)>,
    pub response: String,
    pub length: usize,
    pub status_message: StatusMessage,
}

/// The text of the status line's code and reason.
pub open spec fn spec_status_text(s: StatusMessage) -> Seq<char> {
    match s {
        StatusMessage::OkStatus => "200 OK"@,
        StatusMessage::Custom(c, m) => dec_digits(c as nat) + " "@ + m@,
    }
}

/// The whole wire text of a response: the status line, the fixed headers
/// with the declared length, a blank line, and the body.
pub open spec fn spec_encode(r: Response) -> Seq<char> {
    "HTTP/1.1 "@ + spec_status_text(r.status_message) + "\r\nServer: Travels\r\nContent-Length: "@
        + dec_digits(r.length as nat) + "\r\nContent-Type: application/json\r\n\r\n"@ + r.response@
}

impl Response {
    /// An empty 200 response.
    pub fn new() -> (r: Response)
        ensures
            r.headers@.len() == 0,
            r.response@ == Seq::<char>::empty(),
            r.length == 0,
            r.status_message is OkStatus,
    {
        Response {
            headers: Vec::new(),
            response: String::new(),
            length: 0,
            status_message: StatusMessage::OkStatus,
        }
    }

    /// Sets the status line.
    pub fn status_code(&mut self, code: u32, message: &str)
        ensures
            final(self).status_message matches StatusMessage::Custom(c, m) && c == code && m@
                == message@,
            final(self).headers == old(self).headers,
            final(self).response == old(self).response,
            final(self).length == old(self).length,
    {
        self.status_message = StatusMessage::Custom(code, message.to_owned());
    }

    /// Records an extra header.
    pub fn header(&mut self, name: &str, val: &str)
        ensures
            final(self).headers@.len() == old(self).headers@.len() + 1,
            final(self).headers@.drop_last() == old(self).headers@,
            final(self).headers@.last().0@ == name@,
            final(self).headers@.last().1@ == val@,
            final(self).response == old(self).response,
            final(self).length == old(self).length,
            final(self).status_message == old(self).status_message,
    {
        self.headers.push((name.to_owned(), val.to_owned()));
        proof {
            assert(self.headers@.drop_last() =~= old(self).headers@);
        }
    }

    /// Sets the body text and the declared content length.
    pub fn body(&mut self, length: usize, s: &str)
        ensures
            final(self).length == length,
            final(self).response@ == s@,
            final(self).headers == old(self).headers,
            final(self).status_message == old(self).status_message,
    {
        self.length = length;
        self.response = s.to_owned();
    }
}

/// Renders the wire text of a response.
pub fn encode(msg: &Response) -> (r: Vec<char>)
    ensures
        r@ == spec_encode(*msg),
{
    let mut out: Vec<char> = Vec::new();
    push_str_chars(&mut out, "HTTP/1.1 ");
    match &msg.status_message {
        StatusMessage::OkStatus => {
            push_str_chars(&mut out, "200 OK");
        },
        StatusMessage::Custom(c, m) => {
            push_dec_u128(&mut out, *c as u128);
            push_str_chars(&mut out, " ");
            push_str_chars(&mut out, m.as_str());
        },
    }
    push_str_chars(&mut out, "\r\nServer: Travels\r\nContent-Length: ");
    push_dec_u128(&mut out, msg.length as u128);
    push_str_chars(&mut out, "\r\nContent-Type: application/json\r\n\r\n");
    push_str_chars(&mut out, msg.response.as_str());
    proof {
        assert(out@ =~= spec_encode(*msg));
    }
    out
}

} // verus!
