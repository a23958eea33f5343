//! Dialler decisions: sequence numbers, the signal queue, the frames to send,
//! and the check of the acknowledgement that comes back.
use std::collections::VecDeque;
use vstd::prelude::*;
use vstd::utf8::{decode_utf8, encode_utf8, valid_utf8};
use crate::crypto::{string_from_utf8, valid_key_len};
use crate::message::{
    clear_body, frame_text, is_encrypted_frame_of, opt_str_view, opt_view, timestamp_text,
    with_prefixed, DC09Message, MessageModel, Timestamp,
};
use crate::parser::{parse_dc09, parse_spec, DC09Error};
use crate::scenarios::SignalConfig;
use crate::text::{clone_opt, push_char, push_str};
use crate::utils::{keys_view, KeysMap};

verus! {

/// The mathematical content of a [`SignalConfig`].
pub struct SignalModel {
    pub token: Seq<char>,
    pub message: Option<Seq<char>>,
    pub delay: u16,
    pub repeat: u16,
}

impl View for SignalConfig {
    type V = SignalModel;

    open spec fn view(&self) -> SignalModel {
        SignalModel {
            token: self.token@,
            message: opt_view(self.message),
            delay: self.delay,
            repeat: self.repeat,
        }
    }
}

impl SignalConfig {
    /// A copy of this signal.
    pub fn duplicate(&self) -> (r: SignalConfig)
        ensures
            r@ == self@,
    {
        SignalConfig {
            token: self.token.clone(),
            message: clone_opt(&self.message),
            delay: self.delay,
            repeat: self.repeat,
        }
    }

    /// How many times the signal is sent: `repeat`, and at least once.
    pub fn send_count(&self) -> (r: u16)
        ensures
            r == (if self.repeat == 0 {
                1
            } else {
                self.repeat
            }),
    {
        if self.repeat == 0 {
            1
        } else {
            self.repeat
        }
    }

    /// True when the sender waits `delay` milliseconds first: delays of 50 ms or
    /// less are ignored.
    pub fn waits(&self) -> (r: bool)
        ensures
            r == (self.delay > 50),
    {
        self.delay > 50
    }
}

/// Signals by `(scenario id, step)`; `(0, 0)` is the default signal.
pub struct SignalMap {
    /// A later entry for a key takes precedence.
    pub entries: Vec<(u16, u16, SignalConfig)>,
}

pub open spec fn signal_entries_view(e: Seq<(u16, u16, SignalConfig)>) -> Seq<(u16, u16, SignalModel)> {
    e.map_values(|x: (u16, u16, SignalConfig)| (x.0, x.1, x.2@))
}

/// The signal stored last for `(sid, step)`.
pub open spec fn lookup_signal(e: Seq<(u16, u16, SignalModel)>, sid: u16, step: u16) -> Option<
    SignalModel,
>
    decreases e.len(),
{
    if e.len() == 0 {
        None
    } else if e.last().0 == sid && e.last().1 == step {
        Some(e.last().2)
    } else {
        lookup_signal(e.drop_last(), sid, step)
    }
}

impl SignalMap {
    pub open spec fn get_spec(&self, sid: u16, step: u16) -> Option<SignalModel> {
        lookup_signal(signal_entries_view(self.entries@), sid, step)
    }

    /// An empty map.
    pub fn new() -> (r: Self)
        ensures
            r.entries@.len() == 0,
    {
        SignalMap { entries: Vec::new() }
    }

    /// Stores `signal` under `(sid, step)`, replacing what was there.
    pub fn insert(&mut self, sid: u16, step: u16, signal: SignalConfig)
        ensures
            signal_entries_view(final(self).entries@) == signal_entries_view(old(self).entries@).push(
                (sid, step, signal@),
            ),
            forall|a: u16, b: u16|
                final(self).get_spec(a, b) == (if a == sid && b == step {
                    Some(signal@)
                } else {
                    old(self).get_spec(a, b)
                }),
    {
        let ghost before = signal_entries_view(self.entries@);
        self.entries.push((sid, step, signal));
        proof {
            assert(signal_entries_view(self.entries@) =~= before.push((sid, step, signal@)));
            assert forall|a: u16, b: u16|
                self.get_spec(a, b) == (if a == sid && b == step {
                    Some(signal@)
                } else {
                    old(self).get_spec(a, b)
                }) by {
                assert(signal_entries_view(self.entries@).drop_last() =~= before);
            }
        }
    }

    /// The signal stored under `(sid, step)`.
    pub fn get(&self, sid: u16, step: u16) -> (r: Option<&SignalConfig>)
        ensures
            match r {
                Some(s) => self.get_spec(sid, step) == Some(s@),
                None => self.get_spec(sid, step) is None,
            },
    {
        let mut i: usize = self.entries.len();
        proof {
            assert(signal_entries_view(self.entries@).take(i as int) =~= signal_entries_view(
                self.entries@,
            ));
        }
        while i > 0
            invariant
                i <= self.entries.len(),
                self.get_spec(sid, step) == lookup_signal(
                    signal_entries_view(self.entries@).take(i as int),
                    sid,
                    step,
                ),
            decreases i,
        {
            let ghost e = signal_entries_view(self.entries@).take(i as int);
            proof {
                assert(e.drop_last() =~= signal_entries_view(self.entries@).take(i - 1));
            }
            let entry = &self.entries[i - 1];
            if entry.0 == sid && entry.1 == step {
                return Some(&entry.2);
            }
            i -= 1;
        }
        None
    }
}

/// The mathematical content of a [`Dialler`].
pub struct DiallerModel {
    pub account: Seq<char>,
    pub sequence: u16,
    pub receiver: Option<Seq<char>>,
    pub line_prefix: Option<Seq<char>>,
    pub key: Option<Seq<char>>,
    pub udp: bool,
    pub queue: Seq<(u16, u16)>,
}

/// The state of one dialler: its account, the last sequence number it sent,
/// the fields it puts in each message, its key and its queue of signals.
pub struct Dialler {
    pub account: String,
    pub sequence: u16,
    pub receiver: Option<String>,
    pub line_prefix: Option<String>,
    pub key: Option<String>,
    pub udp: bool,
    pub queue: VecDeque<(u16, u16)>,
    /// How long to wait for an acknowledgement, in milliseconds; `None` waits
    /// without limit.
    pub timeout_ms: Option<u64>,
}

impl View for Dialler {
    type V = DiallerModel;

    open spec fn view(&self) -> DiallerModel {
        DiallerModel {
            account: self.account@,
            sequence: self.sequence,
            receiver: opt_view(self.receiver),
            line_prefix: opt_view(self.line_prefix),
            key: opt_view(self.key),
            udp: self.udp,
            queue: self.queue@,
        }
    }
}

/// The sequence number that follows `s`: one more, wrapping from 9999 to 1.
pub open spec fn next_seq(s: u16) -> u16 {
    if s >= 9999 {
        1
    } else {
        (s + 1) as u16
    }
}

/// The message a dialler builds for one send, before any timestamp.
pub open spec fn outgoing_model(d: DiallerModel, token: Seq<char>, body: Seq<char>) -> MessageModel {
    MessageModel {
        token,
        sequence: next_seq(d.sequence),
        receiver: with_prefixed(None, d.receiver, 'R'),
        line_prefix: with_prefixed(None, d.line_prefix, 'L'),
        account: d.account,
        data: Some(body),
        extended: seq![],
        timestamp: None,
    }
}

/// The body of a signal: `#account|message`, or empty without a message.
pub open spec fn signal_body(account: Seq<char>, message: Option<Seq<char>>) -> Seq<char> {
    match message {
        Some(m) => seq!['#'] + account + seq!['|'] + m,
        None => seq![],
    }
}

/// The signal that the queue yields next, skipping entries without a signal,
/// and the queue that is left.
pub open spec fn next_signal_spec(q: Seq<(u16, u16)>, signals: SignalMap) -> (Option<SignalModel>, Seq<
    (u16, u16),
>)
    decreases q.len(),
{
    if q.len() == 0 {
        (None, q)
    } else if signals.get_spec(q[0].0, q[0].1) is Some {
        (signals.get_spec(q[0].0, q[0].1), q.drop_first())
    } else {
        next_signal_spec(q.drop_first(), signals)
    }
}

/// The check of an acknowledgement `message` by dialler `d`: it must parse with
/// the dialler's key and carry its account and last sequence number.
pub open spec fn ack_check(message: Seq<char>, d: DiallerModel) -> Result<(), DC09Error> {
    match parse_spec(message, d.key) {
        Err(e) => Err(e),
        Ok(m) => if m.sequence != d.sequence {
            Err(DC09Error::InvalidSequenceNumber)
        } else if m.account != d.account {
            Err(DC09Error::InvalidAccountNumber)
        } else {
            Ok(())
        },
    }
}

impl Dialler {
    /// Creates a [`Dialler`] for `account`, at sequence 0, with an empty queue.
    pub fn new(account: String, use_udp: bool) -> (r: Self)
        ensures
            r@ == (DiallerModel {
                account: account@,
                sequence: 0,
                receiver: None,
                line_prefix: None,
                key: None,
                udp: use_udp,
                queue: seq![],
            }),
    {
        Dialler {
            account,
            sequence: 0,
            receiver: None,
            line_prefix: None,
            key: None,
            udp: use_udp,
            queue: VecDeque::new(),
            timeout_ms: None,
        }
    }

    /// Sets the receiver number.
    pub fn with_receiver_number(self, receiver: Option<String>) -> (r: Self)
        ensures
            r@ == (DiallerModel { receiver: opt_view(receiver), ..self@ }),
    {
        let mut s = self;
        s.receiver = receiver;
        s
    }

    /// Sets the line prefix.
    pub fn with_line_prefix(self, prefix: Option<String>) -> (r: Self)
        ensures
            r@ == (DiallerModel { line_prefix: opt_view(prefix), ..self@ }),
    {
        let mut s = self;
        s.line_prefix = prefix;
        s
    }

    /// Sets the sequence number; the next message carries the one after it.
    pub fn with_start_sequence(self, sequence: u16) -> (r: Self)
        ensures
            r@ == (DiallerModel { sequence, ..self@ }),
    {
        let mut s = self;
        s.sequence = sequence;
        s
    }

    /// Takes the key stored under `index` in `keys`, if there is one.
    pub fn with_key(self, keys: &KeysMap, index: u16) -> (r: Self)
        ensures
            r@ == (DiallerModel {
                key: if keys_view(keys@).contains_key(index) {
                    Some(keys_view(keys@)[index])
                } else {
                    None
                },
                ..self@
            }),
    {
        broadcast use vstd::std_specs::hash::group_hash_axioms;

        let mut s = self;
        s.key = match keys.get(&index) {
            Some(k) => Some(k.clone()),
            None => None,
        };
        s
    }

    /// The key that encrypts and decrypts this dialler's messages.
    pub fn key(&self) -> (r: Option<&str>)
        ensures
            opt_str_view(r) == self@.key,
    {
        match &self.key {
            Some(k) => Some(k.as_str()),
            None => None,
        }
    }

    /// Sets how long to wait for an acknowledgement, in milliseconds.
    pub fn set_timeout(&mut self, timeout_ms: Option<u64>)
        ensures
            final(self)@ == old(self)@,
            final(self).timeout_ms == timeout_ms,
    {
        self.timeout_ms = timeout_ms;
    }

    /// Puts the default signal at the back of the queue.
    pub fn add_default_signal(&mut self)
        ensures
            final(self)@ == (DiallerModel { queue: old(self)@.queue.push((0, 0)), ..old(self)@ }),
    {
        self.queue.push_back((0, 0));
    }

    /// Puts the signal `(sid, step)` at the back of the queue.
    pub fn push_signal(&mut self, sid: u16, step: u16)
        ensures
            final(self)@ == (DiallerModel { queue: old(self)@.queue.push((sid, step)), ..old(self)@ }),
    {
        self.queue.push_back((sid, step));
    }

    /// The dialler's account.
    pub fn account(&self) -> (r: &str)
        ensures
            r@ == self@.account,
    {
        self.account.as_str()
    }

    /// Advances to the next sequence number, wrapping from 9999 to 1, and returns it.
    pub fn next_sequence(&mut self) -> (r: u16)
        ensures
            r == next_seq(old(self)@.sequence),
            final(self)@ == (DiallerModel { sequence: r, ..old(self)@ }),
    {
        self.sequence = if self.sequence >= 9999 {
            1
        } else {
            self.sequence + 1
        };
        self.sequence
    }

    /// The body of `signal` for this dialler: `#account|message`, or empty.
    pub fn signal_body(&self, signal: &SignalConfig) -> (r: String)
        ensures
            r@ == signal_body(self@.account, signal@.message),
    {
        let mut out = String::new();
        if let Some(m) = &signal.message {
            push_char(&mut out, '#');
            push_str(&mut out, self.account.as_str());
            push_char(&mut out, '|');
            push_str(&mut out, m.as_str());
        }
        proof {
            assert(out@ =~= signal_body(self@.account, signal@.message));
        }
        out
    }

    /// Takes the next signal from the queue, skipping entries that have none.
    pub fn next_signal(&mut self, signals: &SignalMap) -> (r: Option<SignalConfig>)
        ensures
            match r {
                Some(s) => next_signal_spec(old(self)@.queue, *signals).0 == Some(s@),
                None => next_signal_spec(old(self)@.queue, *signals).0 is None,
            },
            final(self)@ == (DiallerModel {
                queue: next_signal_spec(old(self)@.queue, *signals).1,
                ..old(self)@
            }),
    {
        loop
            invariant
                self@ == (DiallerModel { queue: self@.queue, ..old(self)@ }),
                next_signal_spec(old(self)@.queue, *signals) == next_signal_spec(self@.queue, *signals),
            decreases self@.queue.len(),
        {
            let ghost q = self@.queue;
            match self.queue.pop_front() {
                None => return None,
                Some(item) => {
                    proof {
                        assert(q.drop_first() =~= self@.queue);
                    }
                    if let Some(s) = signals.get(item.0, item.1) {
                        return Some(s.duplicate());
                    }
                },
            }
        }
    }

    /// Prepares the next frame to send: advances the sequence number, then
    /// encrypts the message with the dialler's key, stamped with `timestamp`,
    /// or writes it in the clear when there is no key. `None` when the key's
    /// length is not 16, 24 or 32 bytes.
    pub fn prepare_message(&mut self, token: String, body: String, timestamp: Timestamp) -> (r: Option<
        String,
    >)
        requires
            timestamp.wf(),
        ensures
            final(self)@ == (DiallerModel { sequence: next_seq(old(self)@.sequence), ..old(self)@ }),
            ({
                let m = outgoing_model(old(self)@, token@, body@);
                match old(self)@.key {
                    None => r is Some && r->0@ == frame_text(clear_body(m)),
                    Some(k) => {
                        let mt = MessageModel { timestamp: Some(timestamp_text(timestamp)), ..m };
                        &&& (r is Some <==> valid_key_len(encode_utf8(k).len()))
                        &&& r is Some ==> is_encrypted_frame_of(mt, encode_utf8(k), r->0@)
                    },
                }
            }),
    {
        let sequence = self.next_sequence();
        let message = DC09Message::new(token, self.account.clone(), sequence, Some(body))
            .with_receiver(clone_opt(&self.receiver))
            .with_line_prefix(clone_opt(&self.line_prefix));
        match &self.key {
            Some(k) => message.with_timestamp(timestamp).to_encrypted(k.as_str()),
            None => Some(message.to_string()),
        }
    }

    /// Checks the bytes of an acknowledgement: `None` when they are not UTF-8
    /// text, else the result of [`Dialler::process_ack_message`] on the text.
    pub fn process_ack_buffer(&self, buffer: &[u8]) -> (r: Option<Result<(), DC09Error>>)
        ensures
            r is None <==> !valid_utf8(buffer@),
            r is Some ==> r->0 == ack_check(decode_utf8(buffer@), self@),
    {
        let text = match string_from_utf8(vstd::slice::slice_to_vec(buffer)) {
            Some(t) => t,
            None => return None,
        };
        proof {
            vstd::utf8::encode_utf8_decode_utf8(text@);
        }
        Some(self.process_ack_message(text.as_str()))
    }

    /// Checks an acknowledgement: it must parse with the dialler's key and carry
    /// the dialler's account and its last sequence number.
    pub fn process_ack_message(&self, message: &str) -> (r: Result<(), DC09Error>)
        ensures
            r == ack_check(message@, self@),
    {
        match parse_dc09(message, self.key()) {
            Ok(msg) => msg.validate(self.account.as_str(), self.sequence),
            Err(e) => Err(e),
        }
    }
}

} // verus!
