//! The structured DC-09 message, its builders, and its serialisation to frames.
use vstd::prelude::*;
use vstd::string::StrSliceExecFns;
use vstd::utf8::encode_utf8;
use crate::checksum::{calculate_crc, crc16_arc};
use crate::crypto::{cipher_round_trips, encrypt, encrypted_text, is_padding_for, valid_key_len};
use crate::text::{digits, push_char, push_digits, push_str, str_eq};

verus! {

/// A DC-09 message, as parsed from or serialised to a frame.
#[derive(Debug, PartialEq)]
pub struct DC09Message {
    pub token: String,
    pub sequence: u16,
    pub receiver: Option<String>,
    pub line_prefix: Option<String>,
    pub account: String,
    pub data: Option<String>,
    pub extended: Vec<String>,
    pub timestamp: Option<String>,
}

/// The mathematical content of a [`DC09Message`].
pub struct MessageModel {
    pub token: Seq<char>,
    pub sequence: u16,
    pub receiver: Option<Seq<char>>,
    pub line_prefix: Option<Seq<char>>,
    pub account: Seq<char>,
    pub data: Option<Seq<char>>,
    pub extended: Seq<Seq<char>>,
    pub timestamp: Option<Seq<char>>,
}

pub open spec fn opt_view(o: Option<String>) -> Option<Seq<char>> {
    match o {
        Some(s) => Some(s@),
        None => None,
    }
}

/// The view of an optional text slice.
pub open spec fn opt_str_view(o: Option<&str>) -> Option<Seq<char>> {
    match o {
        Some(k) => Some(k@),
        None => None,
    }
}

pub open spec fn strings_view(v: Seq<String>) -> Seq<Seq<char>> {
    v.map_values(|e: String| e@)
}

impl View for DC09Message {
    type V = MessageModel;

    open spec fn view(&self) -> MessageModel {
        MessageModel {
            token: self.token@,
            sequence: self.sequence,
            receiver: opt_view(self.receiver),
            line_prefix: opt_view(self.line_prefix),
            account: self.account@,
            data: opt_view(self.data),
            extended: strings_view(self.extended@),
            timestamp: opt_view(self.timestamp),
        }
    }
}

/// A UTC point in time, as its calendar fields.
#[derive(Debug, Clone, Copy, PartialEq, Eq)]
pub struct Timestamp {
    pub year: i32,
    pub month: u8,
    pub day: u8,
    pub hour: u8,
    pub minute: u8,
    pub second: u8,
}

impl Timestamp {
    /// Fields within their calendar ranges.
    pub open spec fn wf(&self) -> bool {
        &&& 1 <= self.month <= 12
        &&& 1 <= self.day <= 31
        &&& self.hour < 24
        &&& self.minute < 60
        &&& self.second < 60
    }
}

/// `HH:MM:SS,MM-DD-YYYY`, the year with at least four digits and a leading `-`
/// when negative.
pub open spec fn timestamp_text(t: Timestamp) -> Seq<char> {
    digits(t.hour as nat, 10, 2) + seq![':'] + digits(t.minute as nat, 10, 2) + seq![':']
        + digits(t.second as nat, 10, 2) + seq![','] + digits(t.month as nat, 10, 2) + seq!['-']
        + digits(t.day as nat, 10, 2) + seq!['-'] + if t.year < 0 {
        seq!['-'] + digits((-t.year) as nat, 10, 4)
    } else {
        digits(t.year as nat, 10, 4)
    }
}

/// Relies on `time::OffsetDateTime::now_utc` and its field getters, whose
/// documented ranges are stated here.
#[verifier::external_body]
fn now_utc() -> (t: Timestamp)
    ensures
        t.wf(),
{
    let now = time::OffsetDateTime::now_utc();
    Timestamp {
        year: now.year(),
        month: u8::from(now.month()),
        day: now.day(),
        hour: now.hour(),
        minute: now.minute(),
        second: now.second(),
    }
}

impl Timestamp {
    /// The current UTC time.
    pub fn now() -> (t: Timestamp)
        ensures
            t.wf(),
    {
        now_utc()
    }

    /// The DC-09 text of this time, `HH:MM:SS,MM-DD-YYYY`.
    pub fn format(&self) -> (r: String)
        requires
            self.wf(),
        ensures
            r@ == timestamp_text(*self),
    {
        let mut out = String::new();
        push_digits(&mut out, self.hour as u64, 10, 2);
        push_char(&mut out, ':');
        push_digits(&mut out, self.minute as u64, 10, 2);
        push_char(&mut out, ':');
        push_digits(&mut out, self.second as u64, 10, 2);
        push_char(&mut out, ',');
        push_digits(&mut out, self.month as u64, 10, 2);
        push_char(&mut out, '-');
        push_digits(&mut out, self.day as u64, 10, 2);
        push_char(&mut out, '-');
        if self.year < 0 {
            push_char(&mut out, '-');
            push_digits(&mut out, (0 - self.year as i64) as u64, 10, 4);
        } else {
            push_digits(&mut out, self.year as u64, 10, 4);
        }
        proof {
            assert(out@ =~= timestamp_text(*self));
        }
        out
    }
}

pub open spec fn or_empty(o: Option<Seq<char>>) -> Seq<char> {
    match o {
        Some(s) => s,
        None => seq![],
    }
}

/// The line prefix field, `L0` when absent.
pub open spec fn prefix_or_default(o: Option<Seq<char>>) -> Seq<char> {
    match o {
        Some(s) => s,
        None => seq!['L', '0'],
    }
}

/// `[e]` for each extended segment, in order.
pub open spec fn ext_text(e: Seq<Seq<char>>) -> Seq<char>
    decreases e.len(),
{
    if e.len() == 0 {
        seq![]
    } else {
        ext_text(e.drop_last()) + seq!['['] + e.last() + seq![']']
    }
}

/// `[data]`, then each extended segment, then `_timestamp` when present.
pub open spec fn payload_text(m: MessageModel) -> Seq<char> {
    seq!['['] + or_empty(m.data) + seq![']'] + ext_text(m.extended) + match m.timestamp {
        Some(t) => seq!['_'] + t,
        None => seq![],
    }
}

/// The clear header of a body: token, sequence, receiver, line prefix, account.
pub open spec fn header_text(token: Seq<char>, m: MessageModel) -> Seq<char> {
    seq!['"'] + token + seq!['"'] + digits(m.sequence as nat, 10, 4) + or_empty(m.receiver)
        + prefix_or_default(m.line_prefix) + seq!['#'] + m.account
}

/// The body of a clear frame.
pub open spec fn clear_body(m: MessageModel) -> Seq<char> {
    header_text(m.token, m) + payload_text(m)
}

/// `LF crc4 len4 body CR`, CRC and length taken over the UTF-8 bytes of the body.
pub open spec fn frame_text(body: Seq<char>) -> Seq<char> {
    seq!['\n'] + digits(crc16_arc(encode_utf8(body)) as nat, 16, 4) + digits(
        encode_utf8(body).len(),
        16,
        4,
    ) + body + seq!['\r']
}

/// The token begins with `*`, which marks an encrypted payload.
pub open spec fn starred(t: Seq<char>) -> bool {
    t.len() > 0 && t[0] == '*'
}

pub open spec fn encrypted_token(t: Seq<char>) -> Seq<char> {
    if starred(t) {
        t
    } else {
        seq!['*'] + t
    }
}

pub open spec fn has_data(m: MessageModel) -> bool {
    m.data is Some && m.data->0.len() > 0
}

/// The text that is encrypted: the payload with its leading `[` replaced by `|`
/// when there is data, or dropped when there is none.
pub open spec fn plain_payload(m: MessageModel) -> Seq<char> {
    if has_data(m) {
        seq!['|'] + payload_text(m).drop_first()
    } else {
        payload_text(m).drop_first()
    }
}

/// The body of an encrypted frame, given the hexadecimal ciphertext; the bracket
/// opened before the ciphertext is not closed.
pub open spec fn encrypted_body(m: MessageModel, hex: Seq<char>) -> Seq<char> {
    header_text(encrypted_token(m.token), m) + seq!['['] + hex
}

/// The encrypted frame of `m` under `key` with the given random padding.
pub open spec fn encrypted_frame(m: MessageModel, key: Seq<u8>, pad: Seq<char>) -> Seq<char> {
    frame_text(encrypted_body(m, encrypted_text(key, pad + plain_payload(m))))
}

/// `f` is an encrypted frame of `m` under `key`: with some valid padding, and
/// with a ciphertext that decrypts back to the padded plaintext.
pub open spec fn is_encrypted_frame_of(m: MessageModel, key: Seq<u8>, f: Seq<char>) -> bool {
    exists|pad: Seq<char>|
        is_padding_for(pad, plain_payload(m)) && cipher_round_trips(key, pad + plain_payload(m))
            && f == encrypted_frame(m, key, pad)
}

/// Result of setting a field that must begin with `first`: kept unchanged otherwise.
pub open spec fn with_prefixed(old: Option<Seq<char>>, new: Option<Seq<char>>, first: char) -> Option<
    Seq<char>,
> {
    match new {
        Some(s) => if s.len() > 0 && s[0] == first {
            Some(s)
        } else {
            old
        },
        None => old,
    }
}

fn begins_with(s: &String, c: char) -> (r: bool)
    ensures
        r == (s@.len() > 0 && s@[0] == c),
{
    let t = s.as_str();
    if t.is_empty() {
        false
    } else {
        t.get_char(0) == c
    }
}

/// The frame that wraps `body`.
pub(crate) fn frame(body: &String) -> (r: String)
    ensures
        r@ == frame_text(body@),
{
    let mut out = String::new();
    push_char(&mut out, '\n');
    let crc = calculate_crc(body.as_str());
    push_digits(&mut out, crc as u64, 16, 4);
    let len = body.as_str().as_bytes().len();
    push_digits(&mut out, len as u64, 16, 4);
    push_str(&mut out, body.as_str());
    push_char(&mut out, '\r');
    proof {
        assert(out@ =~= frame_text(body@));
    }
    out
}

impl DC09Message {
    /// Creates a new [`DC09Message`] with no receiver, line prefix, extended data or timestamp.
    pub fn new(token: String, account: String, sequence: u16, data: Option<String>) -> (r: Self)
        ensures
            r@ == (MessageModel {
                token: token@,
                sequence,
                receiver: None,
                line_prefix: None,
                account: account@,
                data: opt_view(data),
                extended: seq![],
                timestamp: None,
            }),
    {
        let r = DC09Message {
            token,
            sequence,
            receiver: None,
            line_prefix: None,
            account,
            data,
            extended: Vec::new(),
            timestamp: None,
        };
        proof {
            assert(r@.extended =~= seq![]);
        }
        r
    }

    /// Creates an acknowledgement message stamped with `timestamp`.
    pub fn ack_at(token: String, account: String, sequence: u16, timestamp: Timestamp) -> (r: Self)
        requires
            timestamp.wf(),
        ensures
            r@ == (MessageModel {
                token: token@,
                sequence,
                receiver: None,
                line_prefix: None,
                account: account@,
                data: None,
                extended: seq![],
                timestamp: Some(timestamp_text(timestamp)),
            }),
    {
        Self::new(token, account, sequence, None).with_timestamp(timestamp)
    }

    /// Creates an acknowledgement message stamped with the current UTC time.
    pub fn ack(token: String, account: String, sequence: u16) -> (r: Self)
        ensures
            exists|t: Timestamp|
                t.wf() && r@ == (MessageModel {
                    token: token@,
                    sequence,
                    receiver: None,
                    line_prefix: None,
                    account: account@,
                    data: None,
                    extended: seq![],
                    timestamp: Some(timestamp_text(t)),
                }),
    {
        let t = Timestamp::now();
        Self::ack_at(token, account, sequence, t)
    }

    /// Sets the timestamp, in the DC-09 text form.
    pub fn with_timestamp(self, timestamp: Timestamp) -> (r: Self)
        requires
            timestamp.wf(),
        ensures
            r@ == (MessageModel { timestamp: Some(timestamp_text(timestamp)), ..self@ }),
    {
        let mut s = self;
        s.timestamp = Some(timestamp.format());
        s
    }

    /// Sets the receiver; a value that does not begin with `R` is ignored.
    pub fn with_receiver(self, receiver: Option<String>) -> (r: Self)
        ensures
            r@ == (MessageModel {
                receiver: with_prefixed(self@.receiver, opt_view(receiver), 'R'),
                ..self@
            }),
    {
        let mut s = self;
        if let Some(rv) = receiver {
            if begins_with(&rv, 'R') {
                s.receiver = Some(rv);
            }
        }
        s
    }

    /// Sets the line prefix; a value that does not begin with `L` is ignored.
    pub fn with_line_prefix(self, line_prefix: Option<String>) -> (r: Self)
        ensures
            r@ == (MessageModel {
                line_prefix: with_prefixed(self@.line_prefix, opt_view(line_prefix), 'L'),
                ..self@
            }),
    {
        let mut s = self;
        if let Some(lp) = line_prefix {
            if begins_with(&lp, 'L') {
                s.line_prefix = Some(lp);
            }
        }
        s
    }

    /// Parses a frame into a [`DC09Message`]; an encrypted payload is decrypted with `key`.
    pub fn try_from(value: &str, key: Option<&str>) -> (r: Result<Self, crate::parser::DC09Error>)
        ensures
            match r {
                Ok(m) => crate::parser::parse_spec(value@, crate::message::opt_str_view(key)) == Ok::<
                    MessageModel,
                    crate::parser::DC09Error,
                >(m@),
                Err(e) => crate::parser::parse_spec(value@, crate::message::opt_str_view(key)) == Err::<
                    MessageModel,
                    crate::parser::DC09Error,
                >(e),
            },
    {
        crate::parser::parse_dc09(value, key)
    }

    /// Checks the account and sequence numbers against the expected ones;
    /// the sequence is checked first.
    pub fn validate(&self, account: &str, sequence: u16) -> (r: Result<(), crate::parser::DC09Error>)
        ensures
            r == (if self.sequence != sequence {
                Err(crate::parser::DC09Error::InvalidSequenceNumber)
            } else if self@.account != account@ {
                Err(crate::parser::DC09Error::InvalidAccountNumber)
            } else {
                Ok(())
            }),
    {
        if self.sequence != sequence {
            Err(crate::parser::DC09Error::InvalidSequenceNumber)
        } else if !str_eq(self.account.as_str(), account) {
            Err(crate::parser::DC09Error::InvalidAccountNumber)
        } else {
            Ok(())
        }
    }

    /// True if the message was (or should be) encrypted: its token begins with `*`.
    pub fn was_encrypted(&self) -> (r: bool)
        ensures
            r == starred(self@.token),
    {
        begins_with(&self.token, '*')
    }

    /// The payload: `[data]`, each extended segment, and `_timestamp` when present.
    pub fn get_payload(&self) -> (r: String)
        ensures
            r@ == payload_text(self@),
    {
        let mut out = String::new();
        push_char(&mut out, '[');
        if let Some(d) = &self.data {
            push_str(&mut out, d.as_str());
        }
        push_char(&mut out, ']');
        let ghost start = out@;
        let ghost ext = self@.extended;
        let mut i: usize = 0;
        while i < self.extended.len()
            invariant
                i <= self.extended.len(),
                ext == strings_view(self.extended@),
                out@ == start + ext_text(ext.take(i as int)),
            decreases self.extended.len() - i,
        {
            push_char(&mut out, '[');
            push_str(&mut out, self.extended[i].as_str());
            push_char(&mut out, ']');
            proof {
                assert(ext.take(i + 1).drop_last() =~= ext.take(i as int));
                assert(out@ =~= start + ext_text(ext.take(i + 1)));
            }
            i += 1;
        }
        proof {
            assert(ext.take(i as int) =~= ext);
        }
        if let Some(t) = &self.timestamp {
            push_char(&mut out, '_');
            push_str(&mut out, t.as_str());
        }
        proof {
            assert(out@ =~= payload_text(self@));
        }
        out
    }

    fn push_header(&self, out: &mut String, star: bool)
        ensures
            final(out)@ == old(out)@ + header_text(
                if star {
                    seq!['*'] + self@.token
                } else {
                    self@.token
                },
                self@,
            ),
    {
        push_char(out, '"');
        if star {
            push_char(out, '*');
        }
        push_str(out, self.token.as_str());
        push_char(out, '"');
        push_digits(out, self.sequence as u64, 10, 4);
        if let Some(r) = &self.receiver {
            push_str(out, r.as_str());
        }
        match &self.line_prefix {
            Some(l) => push_str(out, l.as_str()),
            None => {
                push_char(out, 'L');
                push_char(out, '0');
            },
        }
        push_char(out, '#');
        push_str(out, self.account.as_str());
        proof {
            assert(final(out)@ =~= old(out)@ + header_text(
                if star {
                    seq!['*'] + self@.token
                } else {
                    self@.token
                },
                self@,
            ));
        }
    }

    /// The clear frame of this message.
    pub fn to_string(&self) -> (r: String)
        ensures
            r@ == frame_text(clear_body(self@)),
    {
        let mut body = String::new();
        self.push_header(&mut body, false);
        let payload = self.get_payload();
        push_str(&mut body, payload.as_str());
        proof {
            assert(body@ =~= clear_body(self@));
        }
        frame(&body)
    }

    /// The encrypted frame of this message under `key`: `None` when the key is
    /// not 16, 24 or 32 bytes long.
    pub fn to_encrypted(&self, key: &str) -> (r: Option<String>)
        ensures
            r is Some <==> valid_key_len(encode_utf8(key@).len()),
            r is Some ==> is_encrypted_frame_of(self@, encode_utf8(key@), r->0@),
    {
        let payload = self.get_payload();
        let has_data = match &self.data {
            Some(d) => !d.as_str().is_empty(),
            None => false,
        };
        let plain = if has_data {
            let mut p = String::new();
            push_char(&mut p, '|');
            push_str(&mut p, drop_first_char(payload.as_str()));
            p
        } else {
            let mut p = String::new();
            push_str(&mut p, drop_first_char(payload.as_str()));
            p
        };
        assert(plain@ == plain_payload(self@));
        let hex = match encrypt(plain.as_str(), key.as_bytes()) {
            Some(h) => h,
            None => return None,
        };
        let ghost pad = choose|pad: Seq<char>|
            is_padding_for(pad, plain@) && hex@ == encrypted_text(encode_utf8(key@), pad + plain@)
                && cipher_round_trips(encode_utf8(key@), pad + plain@);
        let mut body = String::new();
        let star = !self.was_encrypted();
        self.push_header(&mut body, star);
        push_char(&mut body, '[');
        push_str(&mut body, hex.as_str());
        proof {
            assert(body@ =~= encrypted_body(self@, hex@));
        }
        let f = frame(&body);
        assert(f@ == encrypted_frame(self@, encode_utf8(key@), pad));
        Some(f)
    }
}

/// The text without its first character.
fn drop_first_char(s: &str) -> (r: &str)
    requires
        s@.len() > 0,
    ensures
        r@ == s@.drop_first(),
{
    let n = s.unicode_len();
    s.substring_char(1, n)
}

} // verus!
