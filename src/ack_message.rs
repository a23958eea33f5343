//! A plain acknowledgement frame, written directly from its fields.
use vstd::prelude::*;
use vstd::utf8::encode_utf8;
use crate::message::{frame, frame_text, opt_view, or_empty, timestamp_text, Timestamp};
use crate::text::{digits, push_char, push_digits, push_str};

verus! {

/// An ACK message: sequence, optional receiver and line prefix, `#account`
/// and `_timestamp`.
pub struct AckMessage {
    pub sequence: u16,
    pub receiver: Option<String>,
    pub line_prefix: Option<String>,
    /// The account with its leading `#`.
    pub account: String,
    /// The timestamp with its leading `_`.
    pub timestamp: String,
}

fn to_owned_opt(o: Option<&str>) -> (r: Option<String>)
    ensures
        opt_view(r) == crate::message::opt_str_view(o),
{
    match o {
        Some(s) => Some(s.to_owned()),
        None => None,
    }
}

/// The body of an ACK: `"ACK"seq4 receiver line_prefix #account []_timestamp`.
pub open spec fn ack_body(a: AckMessage) -> Seq<char> {
    seq!['"', 'A', 'C', 'K', '"'] + digits(a.sequence as nat, 10, 4) + or_empty(opt_view(a.receiver))
        + or_empty(opt_view(a.line_prefix)) + a.account@ + seq!['[', ']'] + a.timestamp@
}

impl AckMessage {
    /// Creates an ACK for `account` stamped with `timestamp`.
    pub fn new_at(
        seq: u16,
        receiver: Option<&str>,
        line_prefix: Option<&str>,
        account: &str,
        timestamp: Timestamp,
    ) -> (r: Self)
        requires
            timestamp.wf(),
        ensures
            r.sequence == seq,
            opt_view(r.receiver) == crate::message::opt_str_view(receiver),
            opt_view(r.line_prefix) == crate::message::opt_str_view(line_prefix),
            r.account@ == seq!['#'] + account@,
            r.timestamp@ == seq!['_'] + timestamp_text(timestamp),
    {
        let mut acc = String::new();
        push_char(&mut acc, '#');
        push_str(&mut acc, account);
        let mut ts = String::new();
        push_char(&mut ts, '_');
        let text = timestamp.format();
        push_str(&mut ts, text.as_str());
        AckMessage {
            sequence: seq,
            receiver: to_owned_opt(receiver),
            line_prefix: to_owned_opt(line_prefix),
            account: acc,
            timestamp: ts,
        }
    }

    /// Creates an ACK for `account` stamped with the current UTC time.
    pub fn new(seq: u16, receiver: Option<&str>, line_prefix: Option<&str>, account: &str) -> (r: Self)
        ensures
            r.sequence == seq,
            opt_view(r.receiver) == crate::message::opt_str_view(receiver),
            opt_view(r.line_prefix) == crate::message::opt_str_view(line_prefix),
            r.account@ == seq!['#'] + account@,
            exists|t: Timestamp| t.wf() && r.timestamp@ == seq!['_'] + timestamp_text(t),
    {
        Self::new_at(seq, receiver, line_prefix, account, Timestamp::now())
    }

    /// The frame of this ACK.
    pub fn to_string(&self) -> (r: String)
        ensures
            r@ == frame_text(ack_body(*self)),
    {
        let mut body = String::new();
        push_char(&mut body, '"');
        push_char(&mut body, 'A');
        push_char(&mut body, 'C');
        push_char(&mut body, 'K');
        push_char(&mut body, '"');
        push_digits(&mut body, self.sequence as u64, 10, 4);
        if let Some(r) = &self.receiver {
            push_str(&mut body, r.as_str());
        }
        if let Some(l) = &self.line_prefix {
            push_str(&mut body, l.as_str());
        }
        push_str(&mut body, self.account.as_str());
        push_char(&mut body, '[');
        push_char(&mut body, ']');
        push_str(&mut body, self.timestamp.as_str());
        proof {
            assert(body@ =~= ack_body(*self));
        }
        frame(&body)
    }
}

} // verus!
