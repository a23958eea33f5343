//! Parsing of DC-09 frames into messages.
use vstd::prelude::*;
use vstd::slice::slice_subrange;
use vstd::utf8::encode_utf8;
use crate::checksum::{calculate_crc_bytes, crc16_arc};
use crate::crypto::{decrypt, decrypt_spec};
use crate::message::{opt_str_view, starred, strings_view, DC09Message, MessageModel};
use crate::text::{
    all_dec, all_hex, chars_of, dec_value, hex_value, is_ascii_alnum, is_dec_char,
    is_hex_char, string_of,
};

verus! {

/// Ways in which a DC-09 frame can be rejected or fail validation.
#[derive(Debug, Clone, Copy, PartialEq, Eq, Structural)]
pub enum DC09Error {
    /// The fixed frame header could not be decoded.
    ParseHeaderError,
    /// The header was decoded but the payload was not.
    ParsePayloadError,
    /// The message is encrypted and there is no key, or decryption failed.
    DecryptError,
    /// The declared length differs from the body's.
    InvalidLength,
    /// The declared CRC differs from the body's.
    InvalidCrc,
    /// The sequence number differs from the expected one.
    InvalidSequenceNumber,
    /// The account differs from the expected one.
    InvalidAccountNumber,
}

impl DC09Error {
    /// A human-readable description of the error.
    pub fn message(&self) -> (r: &'static str)
        ensures
            r@ == match *self {
                DC09Error::ParseHeaderError => "failed to parse DC09 message header"@,
                DC09Error::ParsePayloadError => "failed to parse DC09 message payload"@,
                DC09Error::DecryptError => "failed to decrypt DC09 message"@,
                DC09Error::InvalidLength => "invalid DC09 message length"@,
                DC09Error::InvalidCrc => "invalid DC09 message CRC"@,
                DC09Error::InvalidSequenceNumber => "invalid sequence number"@,
                DC09Error::InvalidAccountNumber => "invalid account number"@,
            },
    {
        match self {
            DC09Error::ParseHeaderError => "failed to parse DC09 message header",
            DC09Error::ParsePayloadError => "failed to parse DC09 message payload",
            DC09Error::DecryptError => "failed to decrypt DC09 message",
            DC09Error::InvalidLength => "invalid DC09 message length",
            DC09Error::InvalidCrc => "invalid DC09 message CRC",
            DC09Error::InvalidSequenceNumber => "invalid sequence number",
            DC09Error::InvalidAccountNumber => "invalid account number",
        }
    }
}


/// Unicode alphanumeric property of a character (`char::is_alphanumeric`).
pub uninterp spec fn unicode_alphanumeric(c: char) -> bool;

/// Relies on `char::is_alphanumeric`: the Unicode Alphabetic or Numeric property.
#[verifier::external_body]
fn is_unicode_alphanumeric(c: char) -> (r: bool)
    ensures
        r == unicode_alphanumeric(c),
{
    c.is_alphanumeric()
}

/// A character allowed in an account: alphanumeric, ASCII or not.
pub open spec fn is_account_char(c: char) -> bool {
    is_ascii_alnum(c) || (c as u32 >= 128 && unicode_alphanumeric(c))
}

fn account_char(c: char) -> (r: bool)
    ensures
        r == is_account_char(c),
{
    if ('0' <= c && c <= '9') || ('A' <= c && c <= 'Z') || ('a' <= c && c <= 'z') {
        true
    } else if (c as u32) < 128 {
        false
    } else {
        is_unicode_alphanumeric(c)
    }
}

/// Position of the first `c` in `s`, or the length of `s` when there is none.
pub open spec fn index_of(s: Seq<char>, c: char) -> nat
    decreases s.len(),
{
    if s.len() == 0 {
        0
    } else if s[0] == c {
        0
    } else {
        1 + index_of(s.drop_first(), c)
    }
}

/// Number of leading hexadecimal digits of `s`, at most `max`.
pub open spec fn hex_run(s: Seq<char>, max: nat) -> nat
    decreases s.len(),
{
    if s.len() == 0 || max == 0 || !is_hex_char(s[0]) {
        0
    } else {
        1 + hex_run(s.drop_first(), (max - 1) as nat)
    }
}

/// Number of leading account characters of `s`.
pub open spec fn account_run(s: Seq<char>) -> nat
    decreases s.len(),
{
    if s.len() == 0 || !is_account_char(s[0]) {
        0
    } else {
        1 + account_run(s.drop_first())
    }
}

/// Length of an optional field `first` followed by one to six hex digits at the start of `s`.
pub open spec fn opt_field_len(s: Seq<char>, first: char) -> nat {
    if s.len() > 0 && s[0] == first && hex_run(s.drop_first(), 6) > 0 {
        1 + hex_run(s.drop_first(), 6)
    } else {
        0
    }
}

/// The clear header of a frame.
pub struct HeaderModel {
    pub crc: nat,
    pub len: nat,
    pub token: Seq<char>,
    pub sequence: nat,
    pub receiver: Option<Seq<char>>,
    pub line_prefix: Option<Seq<char>>,
    pub account: Seq<char>,
    /// What follows the account.
    pub rest: Seq<char>,
}

/// What follows the token's closing quote:
/// `seq4 [R hex{1,6}] [L hex{1,6}] '#' account`, then the rest.
pub open spec fn parse_fields_marked(u: Seq<char>) -> Option<HeaderModel> {
    if u.len() < 4 || !all_dec(u.take(4)) {
        None
    } else {
        let v = u.skip(4);
        let rn = opt_field_len(v, 'R');
        let w = v.skip(rn as int);
        let ln = opt_field_len(w, 'L');
        let x = w.skip(ln as int);
        if x.len() == 0 || x[0] != '#' || account_run(x.drop_first()) == 0 {
            None
        } else {
            let an = account_run(x.drop_first());
            Some(
                HeaderModel {
                    crc: 0,
                    len: 0,
                    token: seq![],
                    sequence: dec_value(u.take(4)),
                    receiver: if rn > 0 {
                        Some(v.take(rn as int))
                    } else {
                        None
                    },
                    line_prefix: if ln > 0 {
                        Some(w.take(ln as int))
                    } else {
                        None
                    },
                    account: x.drop_first().take(an as int),
                    rest: x.drop_first().skip(an as int),
                },
            )
        }
    }
}

/// Number of leading decimal digits of `s`, at most `max`.
pub open spec fn dec_run(s: Seq<char>, max: nat) -> nat
    decreases s.len(),
{
    if s.len() == 0 || max == 0 || !is_dec_char(s[0]) {
        0
    } else {
        1 + dec_run(s.drop_first(), (max - 1) as nat)
    }
}

/// The fields in the shape that negative acknowledgements use, with no `#`
/// before the account: `seq4 [R hex{1,6}] [L dec{1,6}] account`, as in
/// `0000R0L0A0`.
pub open spec fn parse_fields_bare(u: Seq<char>) -> Option<HeaderModel> {
    if u.len() < 4 || !all_dec(u.take(4)) {
        None
    } else {
        let v = u.skip(4);
        let rn = opt_field_len(v, 'R');
        let w = v.skip(rn as int);
        let ln = if w.len() > 0 && w[0] == 'L' && dec_run(w.drop_first(), 6) > 0 {
            1 + dec_run(w.drop_first(), 6)
        } else {
            0nat
        };
        let x = w.skip(ln as int);
        if account_run(x) == 0 {
            None
        } else {
            let an = account_run(x);
            Some(
                HeaderModel {
                    crc: 0,
                    len: 0,
                    token: seq![],
                    sequence: dec_value(u.take(4)),
                    receiver: if rn > 0 {
                        Some(v.take(rn as int))
                    } else {
                        None
                    },
                    line_prefix: if ln > 0 {
                        Some(w.take(ln as int))
                    } else {
                        None
                    },
                    account: x.take(an as int),
                    rest: x.skip(an as int),
                },
            )
        }
    }
}

/// The fields after the token: the `#`-marked form, or else the bare form.
pub open spec fn parse_fields(u: Seq<char>) -> Option<HeaderModel> {
    match parse_fields_marked(u) {
        Some(h) => Some(h),
        None => parse_fields_bare(u),
    }
}

/// `LF crc4 len4 '"' token '"'`, then the fields that [`parse_fields`] reads.
pub open spec fn parse_header(s: Seq<char>) -> Option<HeaderModel> {
    if s.len() < 10 || s[0] != '\n' || !all_hex(s.subrange(1, 9)) || s[9] != '"' {
        None
    } else {
        let t = s.skip(10);
        let tn = index_of(t, '"');
        if tn >= t.len() {
            None
        } else {
            match parse_fields(t.skip((tn + 1) as int)) {
                None => None,
                Some(f) => Some(
                    HeaderModel {
                        crc: hex_value(s.subrange(1, 5)),
                        len: hex_value(s.subrange(5, 9)),
                        token: t.take(tn as int),
                        ..f
                    },
                ),
            }
        }
    }
}

/// The payload, once clear: data, extended segments and timestamp.
pub struct PayloadModel {
    pub data: Seq<char>,
    pub extended: Seq<Seq<char>>,
    pub timestamp: Option<Seq<char>>,
}

/// The `[segment]` items at the start of `s`, and what follows them.
pub open spec fn ext_run(s: Seq<char>) -> (Seq<Seq<char>>, Seq<char>)
    decreases s.len(),
{
    if s.len() > 0 && s[0] == '[' && index_of(s.drop_first(), ']') < s.len() - 1 {
        let k = index_of(s.drop_first(), ']');
        let (e, r) = ext_run(s.drop_first().skip((k + 1) as int));
        (seq![s.drop_first().take(k as int)] + e, r)
    } else {
        (seq![], s)
    }
}

/// `['['] data ']' {'[' ext ']'} ['_' timestamp up to CR]`; anything after is ignored.
pub open spec fn parse_payload(s: Seq<char>) -> Option<PayloadModel> {
    let a = if s.len() > 0 && s[0] == '[' {
        s.drop_first()
    } else {
        s
    };
    let dn = index_of(a, ']');
    if dn >= a.len() {
        None
    } else {
        let c = ext_run(a.skip((dn + 1) as int)).1;
        Some(
            PayloadModel {
                data: a.take(dn as int),
                extended: ext_run(a.skip((dn + 1) as int)).0,
                timestamp: if c.len() > 0 && c[0] == '_' {
                    Some(c.drop_first().take(index_of(c.drop_first(), '\r') as int))
                } else {
                    None
                },
            },
        )
    }
}

/// What follows the first `|`, or the whole text when there is none.
pub open spec fn remove_padding_spec(d: Seq<char>) -> Seq<char> {
    if index_of(d, '|') < d.len() {
        d.skip((index_of(d, '|') + 1) as int)
    } else {
        d
    }
}

/// The data of a decrypted payload: what follows the first `|`, which ends the
/// random padding. Without a `|` the data part is padding alone, and empty
/// data counts as none.
pub open spec fn decrypted_data(d: Seq<char>) -> Option<Seq<char>> {
    if index_of(d, '|') < d.len() && remove_padding_spec(d).len() > 0 {
        Some(remove_padding_spec(d))
    } else {
        None
    }
}

/// The message made of a header and a payload; empty data counts as none, and
/// decrypted data loses its padding.
pub open spec fn message_of(h: HeaderModel, p: PayloadModel, encrypted: bool) -> MessageModel {
    MessageModel {
        token: h.token,
        sequence: h.sequence as u16,
        receiver: h.receiver,
        line_prefix: h.line_prefix,
        account: h.account,
        data: if encrypted {
            decrypted_data(p.data)
        } else if p.data.len() == 0 {
            None
        } else {
            Some(p.data)
        },
        extended: p.extended,
        timestamp: p.timestamp,
    }
}

/// The length and CRC checks of a frame whose header declares `len` and `crc`.
pub open spec fn check_spec(s: Seq<char>, len: nat, crc: nat) -> Result<(), DC09Error> {
    if len != encode_utf8(s).len() - 10 {
        Err(DC09Error::InvalidLength)
    } else if crc != crc16_arc(encode_utf8(s).subrange(9, (9 + len) as int)) as nat {
        Err(DC09Error::InvalidCrc)
    } else {
        Ok(())
    }
}

/// The outcome of parsing the frame `s` with an optional key.
pub open spec fn parse_spec(s: Seq<char>, key: Option<Seq<char>>) -> Result<MessageModel, DC09Error> {
    match parse_header(s) {
        None => Err(DC09Error::ParseHeaderError),
        Some(h) => {
            if check_spec(s, h.len, h.crc) is Err {
                Err(check_spec(s, h.len, h.crc)->Err_0)
            } else if starred(h.token) {
                match key {
                    None => Err(DC09Error::DecryptError),
                    Some(k) => {
                        if h.rest.len() < 2 {
                            Err(DC09Error::DecryptError)
                        } else {
                            match decrypt_spec(
                                h.rest.subrange(1, h.rest.len() - 1),
                                encode_utf8(k),
                            ) {
                                None => Err(DC09Error::DecryptError),
                                Some(p) => match parse_payload(p) {
                                    None => Err(DC09Error::ParsePayloadError),
                                    Some(pl) => Ok(message_of(h, pl, true)),
                                },
                            }
                        }
                    },
                }
            } else {
                match parse_payload(h.rest) {
                    None => Err(DC09Error::ParsePayloadError),
                    Some(pl) => Ok(message_of(h, pl, false)),
                }
            }
        },
    }
}

fn find_char(v: &Vec<char>, i: usize, c: char) -> (r: usize)
    requires
        i <= v.len(),
    ensures
        r == i + index_of(v@.skip(i as int), c),
        r <= v.len(),
    decreases v.len() - i,
{
    if i >= v.len() {
        i
    } else if v[i] == c {
        i
    } else {
        assert(v@.skip(i as int).drop_first() =~= v@.skip(i + 1));
        find_char(v, i + 1, c)
    }
}

fn hex_run_at(v: &Vec<char>, i: usize, max: usize) -> (r: usize)
    requires
        i <= v.len(),
    ensures
        r == hex_run(v@.skip(i as int), max as nat),
        i + r <= v.len(),
    decreases v.len() - i,
{
    if i >= v.len() || max == 0 || !hex_digit(v[i]) {
        0
    } else {
        assert(v@.skip(i as int).drop_first() =~= v@.skip(i + 1));
        1 + hex_run_at(v, i + 1, max - 1)
    }
}

fn account_run_at(v: &Vec<char>, i: usize) -> (r: usize)
    requires
        i <= v.len(),
    ensures
        r == account_run(v@.skip(i as int)),
        i + r <= v.len(),
    decreases v.len() - i,
{
    if i >= v.len() || !account_char(v[i]) {
        0
    } else {
        assert(v@.skip(i as int).drop_first() =~= v@.skip(i + 1));
        1 + account_run_at(v, i + 1)
    }
}

fn hex_digit(c: char) -> (r: bool)
    ensures
        r == is_hex_char(c),
{
    ('0' <= c && c <= '9') || ('A' <= c && c <= 'F') || ('a' <= c && c <= 'f')
}

fn opt_field_at(v: &Vec<char>, i: usize, first: char) -> (r: usize)
    requires
        i <= v.len(),
    ensures
        r == opt_field_len(v@.skip(i as int), first),
        i + r <= v.len(),
{
    if i < v.len() && v[i] == first {
        assert(v@.skip(i as int).drop_first() =~= v@.skip(i + 1));
        let n = hex_run_at(v, i + 1, 6);
        if n > 0 {
            1 + n
        } else {
            0
        }
    } else {
        0
    }
}

/// Value of the `n` hexadecimal (`base` 16) or decimal (`base` 10) digits at `i`.
fn number_at(v: &Vec<char>, i: usize, n: usize, base: u32) -> (r: Option<u32>)
    requires
        i + n <= v.len(),
        n <= 4,
        base == 10 || base == 16,
    ensures
        base == 16 ==> (r is Some <==> all_hex(v@.subrange(i as int, i + n))),
        base == 10 ==> (r is Some <==> all_dec(v@.subrange(i as int, i + n))),
        base == 16 && r is Some ==> r->0 as nat == hex_value(v@.subrange(i as int, i + n)),
        base == 10 && r is Some ==> r->0 as nat == dec_value(v@.subrange(i as int, i + n)),
        r is Some ==> r->0 < 0x10000,
    decreases n,
{
    if n == 0 {
        assert(v@.subrange(i as int, i as int) =~= Seq::<char>::empty());
        return Some(0);
    }
    let prev = number_at(v, i, n - 1, base);
    let c = v[i + n - 1];
    let ghost sub = v@.subrange(i as int, i + n);
    assert(sub.drop_last() =~= v@.subrange(i as int, i + n - 1));
    assert(sub.last() == c);
    match prev {
        None => {
            assert(!all_hex(v@.subrange(i as int, i + n - 1)) ==> !all_hex(sub));
            assert(!all_dec(v@.subrange(i as int, i + n - 1)) ==> !all_dec(sub));
            None
        },
        Some(p) => {
            let d: u32 = if base == 10 {
                if '0' <= c && c <= '9' {
                    c as u32 - '0' as u32
                } else {
                    return None;
                }
            } else if '0' <= c && c <= '9' {
                c as u32 - '0' as u32
            } else if 'A' <= c && c <= 'F' {
                c as u32 - 'A' as u32 + 10
            } else if 'a' <= c && c <= 'f' {
                c as u32 - 'a' as u32 + 10
            } else {
                return None;
            };
            assert(p < 0x1000) by {
                if n - 1 < 4 {
                    lemma_number_bound(v@.subrange(i as int, i + n - 1), base as nat);
                }
            }
            Some(p * base + d)
        },
    }
}

proof fn lemma_number_bound(s: Seq<char>, base: nat)
    requires
        s.len() < 4,
        base == 10 || base == 16,
    ensures
        base == 16 && all_hex(s) ==> hex_value(s) < (if s.len() == 0 {
            1nat
        } else if s.len() == 1 {
            16nat
        } else if s.len() == 2 {
            256nat
        } else {
            4096nat
        }),
        base == 10 && all_dec(s) ==> dec_value(s) < (if s.len() == 0 {
            1nat
        } else if s.len() == 1 {
            10nat
        } else if s.len() == 2 {
            100nat
        } else {
            1000nat
        }),
    decreases s.len(),
{
    if s.len() > 0 {
        lemma_number_bound(s.drop_last(), base);
        assert(all_hex(s) ==> all_hex(s.drop_last()));
        assert(all_dec(s) ==> all_dec(s.drop_last()));
        assert(all_hex(s) ==> is_hex_char(s.last()));
        assert(all_dec(s) ==> is_dec_char(s.last()));
    }
}

struct ParsedHeader {
    crc: u16,
    len: u16,
    token: String,
    sequence: u16,
    receiver: Option<String>,
    line_prefix: Option<String>,
    account: String,
    rest: usize,
}

impl ParsedHeader {
    spec fn matches(&self, v: Seq<char>, m: HeaderModel) -> bool {
        &&& self.crc as nat == m.crc
        &&& self.len as nat == m.len
        &&& self.token@ == m.token
        &&& self.sequence as nat == m.sequence
        &&& crate::message::opt_view(self.receiver) == m.receiver
        &&& crate::message::opt_view(self.line_prefix) == m.line_prefix
        &&& self.account@ == m.account
        &&& self.rest <= v.len()
        &&& v.skip(self.rest as int) == m.rest
    }
}

fn text_between(v: &Vec<char>, i: usize, j: usize) -> (r: String)
    requires
        i <= j <= v.len(),
    ensures
        r@ == v@.subrange(i as int, j as int),
{
    string_of(slice_subrange(v.as_slice(), i, j))
}

proof fn lemma_all_hex_split(s: Seq<char>)
    requires
        s.len() >= 9,
    ensures
        all_hex(s.subrange(1, 9)) <==> all_hex(s.subrange(1, 5)) && all_hex(s.subrange(5, 9)),
{
    if all_hex(s.subrange(1, 5)) && all_hex(s.subrange(5, 9)) {
        assert forall|k: int| 0 <= k < 8 implies is_hex_char(#[trigger] s.subrange(1, 9)[k]) by {
            if k < 4 {
                assert(s.subrange(1, 9)[k] == s.subrange(1, 5)[k]);
            } else {
                assert(s.subrange(1, 9)[k] == s.subrange(5, 9)[k - 4]);
            }
        }
    }
    if all_hex(s.subrange(1, 9)) {
        assert forall|k: int| 0 <= k < 4 implies is_hex_char(#[trigger] s.subrange(1, 5)[k]) by {
            assert(s.subrange(1, 9)[k] == s.subrange(1, 5)[k]);
        }
        assert forall|k: int| 0 <= k < 4 implies is_hex_char(#[trigger] s.subrange(5, 9)[k]) by {
            assert(s.subrange(1, 9)[k + 4] == s.subrange(5, 9)[k]);
        }
    }
}

/// Parses the `#`-marked fields after the token, starting at `u0`.
fn parse_marked_at(v: &Vec<char>, u0: usize) -> (r: Option<ParsedHeader>)
    requires
        u0 <= v.len(),
    ensures
        r is None <==> parse_fields_marked(v@.skip(u0 as int)) is None,
        r is Some ==> ({
            let f = parse_fields_marked(v@.skip(u0 as int))->0;
            &&& r->0.matches(v@, HeaderModel { crc: 0, len: 0, token: seq![], ..f })
        }),
{
    let ghost s = v@;
    let ghost u = s.skip(u0 as int);
    if v.len() - u0 < 4 {
        return None;
    }
    let sequence = number_at(v, u0, 4, 10);
    proof {
        assert(u.take(4) =~= s.subrange(u0 as int, u0 + 4));
    }
    let sequence = match sequence {
        Some(n) => n as u16,
        None => return None,
    };
    let v0 = u0 + 4;
    proof {
        assert(u.skip(4) =~= s.skip(v0 as int));
    }
    let rn = opt_field_at(v, v0, 'R');
    let w0 = v0 + rn;
    proof {
        assert(s.skip(v0 as int).skip(rn as int) =~= s.skip(w0 as int));
    }
    let ln = opt_field_at(v, w0, 'L');
    let x0 = w0 + ln;
    proof {
        assert(s.skip(w0 as int).skip(ln as int) =~= s.skip(x0 as int));
    }
    if x0 >= v.len() || v[x0] != '#' {
        return None;
    }
    let an = account_run_at(v, x0 + 1);
    proof {
        assert(s.skip(x0 as int).drop_first() =~= s.skip(x0 + 1));
    }
    if an == 0 {
        return None;
    }
    let receiver = if rn > 0 {
        Some(text_between(v, v0, w0))
    } else {
        None
    };
    let line_prefix = if ln > 0 {
        Some(text_between(v, w0, x0))
    } else {
        None
    };
    let account = text_between(v, x0 + 1, x0 + 1 + an);
    proof {
        assert(s.skip(v0 as int).take(rn as int) =~= s.subrange(v0 as int, w0 as int));
        assert(s.skip(w0 as int).take(ln as int) =~= s.subrange(w0 as int, x0 as int));
        assert(s.skip(x0 + 1).take(an as int) =~= s.subrange(x0 + 1, x0 + 1 + an));
        assert(s.skip(x0 + 1).skip(an as int) =~= s.skip(x0 + 1 + an));
    }
    Some(
        ParsedHeader {
            crc: 0,
            len: 0,
            token: String::new(),
            sequence,
            receiver,
            line_prefix,
            account,
            rest: x0 + 1 + an,
        },
    )
}

fn dec_run_at(v: &Vec<char>, i: usize, max: usize) -> (r: usize)
    requires
        i <= v.len(),
    ensures
        r == dec_run(v@.skip(i as int), max as nat),
        i + r <= v.len(),
    decreases v.len() - i,
{
    if i >= v.len() || max == 0 || !('0' <= v[i] && v[i] <= '9') {
        0
    } else {
        assert(v@.skip(i as int).drop_first() =~= v@.skip(i + 1));
        1 + dec_run_at(v, i + 1, max - 1)
    }
}

/// Parses the bare fields after the token, starting at `u0`.
fn parse_bare_at(v: &Vec<char>, u0: usize) -> (r: Option<ParsedHeader>)
    requires
        u0 <= v.len(),
    ensures
        r is None <==> parse_fields_bare(v@.skip(u0 as int)) is None,
        r is Some ==> ({
            let f = parse_fields_bare(v@.skip(u0 as int))->0;
            &&& r->0.matches(v@, HeaderModel { crc: 0, len: 0, token: seq![], ..f })
        }),
{
    let ghost s = v@;
    let ghost u = s.skip(u0 as int);
    if v.len() - u0 < 4 {
        return None;
    }
    let sequence = number_at(v, u0, 4, 10);
    proof {
        assert(u.take(4) =~= s.subrange(u0 as int, u0 + 4));
    }
    let sequence = match sequence {
        Some(n) => n as u16,
        None => return None,
    };
    let v0 = u0 + 4;
    proof {
        assert(u.skip(4) =~= s.skip(v0 as int));
    }
    let rn = opt_field_at(v, v0, 'R');
    let w0 = v0 + rn;
    proof {
        assert(s.skip(v0 as int).skip(rn as int) =~= s.skip(w0 as int));
    }
    let ln: usize = if w0 < v.len() && v[w0] == 'L' {
        proof {
            assert(s.skip(w0 as int).drop_first() =~= s.skip(w0 + 1));
        }
        let n = dec_run_at(v, w0 + 1, 6);
        if n > 0 {
            1 + n
        } else {
            0
        }
    } else {
        0
    };
    let x0 = w0 + ln;
    proof {
        assert(s.skip(w0 as int).skip(ln as int) =~= s.skip(x0 as int));
    }
    let an = account_run_at(v, x0);
    if an == 0 {
        return None;
    }
    let receiver = if rn > 0 {
        Some(text_between(v, v0, w0))
    } else {
        None
    };
    let line_prefix = if ln > 0 {
        Some(text_between(v, w0, x0))
    } else {
        None
    };
    let account = text_between(v, x0, x0 + an);
    proof {
        assert(s.skip(v0 as int).take(rn as int) =~= s.subrange(v0 as int, w0 as int));
        assert(s.skip(w0 as int).take(ln as int) =~= s.subrange(w0 as int, x0 as int));
        assert(s.skip(x0 as int).take(an as int) =~= s.subrange(x0 as int, x0 + an));
        assert(s.skip(x0 as int).skip(an as int) =~= s.skip(x0 + an));
    }
    Some(
        ParsedHeader {
            crc: 0,
            len: 0,
            token: String::new(),
            sequence,
            receiver,
            line_prefix,
            account,
            rest: x0 + an,
        },
    )
}

/// Parses the fields after the token, starting at `u0`.
fn parse_fields_at(v: &Vec<char>, u0: usize) -> (r: Option<ParsedHeader>)
    requires
        u0 <= v.len(),
    ensures
        r is None <==> parse_fields(v@.skip(u0 as int)) is None,
        r is Some ==> ({
            let f = parse_fields(v@.skip(u0 as int))->0;
            &&& r->0.matches(v@, HeaderModel { crc: 0, len: 0, token: seq![], ..f })
        }),
{
    match parse_marked_at(v, u0) {
        Some(h) => Some(h),
        None => parse_bare_at(v, u0),
    }
}

/// Parses the clear header of the frame held in `v`.
fn parse_dc09_header(v: &Vec<char>) -> (r: Option<ParsedHeader>)
    ensures
        r is None <==> parse_header(v@) is None,
        r is Some ==> r->0.matches(v@, parse_header(v@)->0),
{
    let ghost s = v@;
    if v.len() < 10 || v[0] != '\n' || v[9] != '"' {
        return None;
    }
    let crc = number_at(v, 1, 4, 16);
    let len = number_at(v, 5, 4, 16);
    proof {
        lemma_all_hex_split(s);
    }
    let (crc, len) = match (crc, len) {
        (Some(c), Some(l)) => (c as u16, l as u16),
        _ => return None,
    };
    let ghost t = s.skip(10);
    let q = find_char(v, 10, '"');
    if q >= v.len() {
        return None;
    }
    let ghost tn = index_of(t, '"');
    proof {
        assert(t.skip((tn + 1) as int) =~= s.skip(q + 1));
        assert(t.take(tn as int) =~= s.subrange(10, q as int));
    }
    let mut h = match parse_fields_at(v, q + 1) {
        Some(h) => h,
        None => return None,
    };
    h.crc = crc;
    h.len = len;
    h.token = text_between(v, 10, q);
    Some(h)
}

/// Collects the `[segment]` items that start at `i`; returns where they end.
fn parse_ext_at(v: &Vec<char>, i: usize, out: &mut Vec<String>) -> (r: usize)
    requires
        i <= v.len(),
    ensures
        r <= v.len(),
        strings_view(final(out)@) == strings_view(old(out)@) + ext_run(v@.skip(i as int)).0,
        v@.skip(r as int) == ext_run(v@.skip(i as int)).1,
    decreases v.len() - i,
{
    let ghost s = v@.skip(i as int);
    if i < v.len() && v[i] == '[' {
        proof {
            assert(s.drop_first() =~= v@.skip(i + 1));
        }
        let k = find_char(v, i + 1, ']');
        if k < v.len() {
            let seg = text_between(v, i + 1, k);
            let ghost before = *out;
            out.push(seg);
            proof {
                assert(strings_view(out@) =~= strings_view(before@) + seq![seg@]);
                assert(s.drop_first().take(k - i - 1) =~= v@.subrange(i + 1, k as int));
                assert(s.drop_first().skip(k - i) =~= v@.skip(k + 1));
            }
            let r = parse_ext_at(v, k + 1, out);
            proof {
                assert(strings_view(final(out)@) =~= strings_view(old(out)@) + ext_run(s).0);
            }
            return r;
        }
    }
    proof {
        assert(strings_view(out@) =~= strings_view(out@) + Seq::<Seq<char>>::empty());
    }
    i
}

struct ParsedPayload {
    data: String,
    extended: Vec<String>,
    timestamp: Option<String>,
}

/// Parses the clear payload that starts at `i`.
fn parse_dc09_payload(v: &Vec<char>, i: usize) -> (r: Option<ParsedPayload>)
    requires
        i <= v.len(),
    ensures
        r is None <==> parse_payload(v@.skip(i as int)) is None,
        r is Some ==> ({
            let p = parse_payload(v@.skip(i as int))->0;
            &&& r->0.data@ == p.data
            &&& strings_view(r->0.extended@) == p.extended
            &&& crate::message::opt_view(r->0.timestamp) == p.timestamp
        }),
{
    let ghost s = v@.skip(i as int);
    let a0 = if i < v.len() && v[i] == '[' {
        i + 1
    } else {
        i
    };
    let ghost a = if s.len() > 0 && s[0] == '[' {
        s.drop_first()
    } else {
        s
    };
    proof {
        assert(a =~= v@.skip(a0 as int));
    }
    let d = find_char(v, a0, ']');
    if d >= v.len() {
        return None;
    }
    let data = text_between(v, a0, d);
    let mut extended: Vec<String> = Vec::new();
    let c0 = parse_ext_at(v, d + 1, &mut extended);
    proof {
        assert(a.take(d - a0) =~= v@.subrange(a0 as int, d as int));
        assert(a.skip(d - a0 + 1) =~= v@.skip(d + 1));
        assert(strings_view(Seq::<String>::empty()) =~= Seq::<Seq<char>>::empty());
        assert(Seq::<Seq<char>>::empty() + ext_run(v@.skip(d + 1)).0 =~= ext_run(v@.skip(d + 1)).0);
    }
    let timestamp = if c0 < v.len() && v[c0] == '_' {
        let e = find_char(v, c0 + 1, '\r');
        proof {
            assert(v@.skip(c0 as int).drop_first() =~= v@.skip(c0 + 1));
            assert(v@.skip(c0 + 1).take(e - c0 - 1) =~= v@.subrange(c0 + 1, e as int));
        }
        Some(text_between(v, c0 + 1, e))
    } else {
        None
    };
    Some(ParsedPayload { data, extended, timestamp })
}

/// Returns what follows the first `|` of `data`, or all of it when there is none.
pub fn remove_padding(data: &str) -> (r: String)
    ensures
        r@ == remove_padding_spec(data@),
{
    let v = chars_of(data);
    let k = find_char(&v, 0, '|');
    proof {
        assert(v@.skip(0) =~= v@);
    }
    if k < v.len() {
        proof {
            assert(v@.skip(k + 1) =~= v@.subrange(k + 1, v@.len() as int));
        }
        text_between(&v, k + 1, v.len())
    } else {
        proof {
            assert(v@.subrange(0, v@.len() as int) =~= v@);
        }
        text_between(&v, 0, v.len())
    }
}

/// The data of a decrypted payload, without its padding; `None` when there
/// is no `|` or nothing follows it.
fn decrypted_data_of(data: &str) -> (r: Option<String>)
    ensures
        crate::message::opt_view(r) == decrypted_data(data@),
{
    let v = chars_of(data);
    let k = find_char(&v, 0, '|');
    proof {
        assert(v@.skip(0) =~= v@);
    }
    if k < v.len() && k + 1 < v.len() {
        proof {
            assert(v@.skip(k + 1) =~= v@.subrange(k + 1, v@.len() as int));
        }
        Some(text_between(&v, k + 1, v.len()))
    } else {
        None
    }
}

/// Checks the declared length and CRC of the frame `input`.
pub fn validate(input: &str, len: u16, crc: u16) -> (r: Result<(), DC09Error>)
    ensures
        r == check_spec(input@, len as nat, crc as nat),
{
    let b = input.as_bytes();
    let n = b.len();
    if n < 10 || len as usize != n - 10 {
        return Err(DC09Error::InvalidLength);
    }
    let body = slice_subrange(b, 9, len as usize + 9);
    if crc != calculate_crc_bytes(body) {
        Err(DC09Error::InvalidCrc)
    } else {
        Ok(())
    }
}

/// Parses a complete DC-09 frame; an encrypted payload is decrypted with `key`.
pub fn parse_dc09(input: &str, key: Option<&str>) -> (r: Result<DC09Message, DC09Error>)
    ensures
        match r {
            Ok(m) => parse_spec(input@, opt_str_view(key)) == Ok::<MessageModel, DC09Error>(m@),
            Err(e) => parse_spec(input@, opt_str_view(key)) == Err::<MessageModel, DC09Error>(e),
        },
{
    let v = chars_of(input);
    let header = match parse_dc09_header(&v) {
        Some(h) => h,
        None => return Err(DC09Error::ParseHeaderError),
    };
    let ghost hm = parse_header(input@)->0;
    match validate(input, header.len, header.crc) {
        Ok(()) => {},
        Err(e) => return Err(e),
    }
    let encrypted = !header.token.as_str().is_empty() && crate::text::first_char(&header.token) == '*';
    let payload = if encrypted {
        let k = match key {
            Some(k) => k,
            None => return Err(DC09Error::DecryptError),
        };
        if v.len() - header.rest < 2 {
            return Err(DC09Error::DecryptError);
        }
        let hex = text_between(&v, header.rest + 1, v.len() - 1);
        proof {
            assert(hm.rest.subrange(1, hm.rest.len() - 1) =~= v@.subrange(header.rest + 1, v.len() - 1));
        }
        let plain = match decrypt(hex.as_str(), k.as_bytes()) {
            Some(p) => p,
            None => return Err(DC09Error::DecryptError),
        };
        let pv = chars_of(plain.as_str());
        proof {
            assert(pv@.skip(0) =~= pv@);
        }
        parse_dc09_payload(&pv, 0)
    } else {
        parse_dc09_payload(&v, header.rest)
    };
    let p = match payload {
        Some(p) => p,
        None => return Err(DC09Error::ParsePayloadError),
    };
    let data = if encrypted {
        decrypted_data_of(p.data.as_str())
    } else if p.data.as_str().is_empty() {
        None
    } else {
        Some(p.data)
    };
    Ok(
        DC09Message {
            token: header.token,
            sequence: header.sequence,
            receiver: header.receiver,
            line_prefix: header.line_prefix,
            account: header.account,
            data,
            extended: p.extended,
            timestamp: p.timestamp,
        },
    )
}

/// Parses only the account of the frame's clear header.
pub fn parse_dc09_account_name(input: &str) -> (r: Result<String, DC09Error>)
    ensures
        match r {
            Ok(a) => parse_header(input@) is Some && a@ == parse_header(input@)->0.account,
            Err(e) => parse_header(input@) is None && e == DC09Error::ParseHeaderError,
        },
{
    let v = chars_of(input);
    match parse_dc09_header(&v) {
        Some(h) => Ok(h.account),
        None => Err(DC09Error::ParseHeaderError),
    }
}

} // verus!
