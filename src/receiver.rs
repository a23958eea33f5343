//! Receiver decisions: per-account key selection and response synthesis.
use vstd::prelude::*;
use vstd::utf8::{decode_utf8, encode_utf8, valid_utf8};
use crate::crypto::{string_from_utf8, valid_key_len};
use crate::message::{
    clear_body, frame_text, is_encrypted_frame_of, opt_str_view, starred, timestamp_text,
    with_prefixed, DC09Message, MessageModel, Timestamp,
};
use crate::parser::{parse_dc09_account_name, parse_header, parse_spec, DC09Error};
use crate::scenarios::{DiallerConfig, Scenarios};
use crate::utils::{
    account_name_spec, build_keys_map, get_account_name, keys_map_spec, keys_view, parse_u32, parse_u32_spec,
    KeysMap,
};

verus! {

pub open spec fn entries_view(v: Seq<(String, u16)>) -> Seq<(Seq<char>, u16)> {
    v.map_values(|e: (String, u16)| (e.0@, e.1))
}

/// The key index of `name`: the last entry for it wins.
pub open spec fn lookup_account(entries: Seq<(Seq<char>, u16)>, name: Seq<char>) -> Option<u16>
    decreases entries.len(),
{
    if entries.len() == 0 {
        None
    } else if entries.last().0 == name {
        Some(entries.last().1)
    } else {
        lookup_account(entries.drop_last(), name)
    }
}

/// The accounts of one dialler configuration, all mapped to `index`.
pub open spec fn dialler_entries(d: DiallerConfig, index: u16) -> Seq<(Seq<char>, u16)> {
    Seq::new(
        if d.count == 0 {
            1nat
        } else {
            d.count as nat
        },
        |j: int| (account_name_spec(j as u16, parse_u32_spec(d.name@), d.name@, false), index),
    )
}

/// The account entries of the first `n` dialler configurations.
pub open spec fn config_entries(ds: Seq<DiallerConfig>, n: nat) -> Seq<(Seq<char>, u16)>
    decreases n,
{
    if n == 0 {
        seq![]
    } else {
        config_entries(ds, (n - 1) as nat) + dialler_entries(ds[n - 1], n as u16)
    }
}

pub open spec fn map_get(m: Map<u16, Seq<char>>, k: u16) -> Option<Seq<char>> {
    if m.contains_key(k) {
        Some(m[k])
    } else {
        None
    }
}

/// The key for a received frame: the key of its account's dialler when the
/// account is known, else the default key.
pub open spec fn key_for_spec(
    entries: Seq<(Seq<char>, u16)>,
    keys: Map<u16, Seq<char>>,
    frame: Seq<char>,
) -> Option<Seq<char>> {
    if entries.len() > 0 && parse_header(frame) is Some && lookup_account(
        entries,
        parse_header(frame)->0.account,
    ) is Some {
        map_get(keys, lookup_account(entries, parse_header(frame)->0.account)->0)
    } else {
        map_get(keys, 0)
    }
}

/// Receiver configuration: account to key index, the keys, and whether to answer with NAK.
pub struct ServerConfig {
    /// Account names with their key index; a later entry for a name takes precedence.
    pub diallers: Vec<(String, u16)>,
    pub keys: KeysMap,
    pub send_naks: bool,
}

impl ServerConfig {
    /// Creates a [`ServerConfig`]: each configured dialler's accounts map to its
    /// index plus one.
    pub fn new(config: Vec<DiallerConfig>, keys: KeysMap, send_naks: bool) -> (r: Self)
        requires
            config@.len() <= 0xFFFF,
        ensures
            entries_view(r.diallers@) == config_entries(config@, config@.len()),
            r.keys@ == keys@,
            r.send_naks == send_naks,
    {
        let mut diallers: Vec<(String, u16)> = Vec::new();
        let mut i: usize = 0;
        while i < config.len()
            invariant
                i <= config.len() <= 0xFFFF,
                entries_view(diallers@) == config_entries(config@, i as nat),
            decreases config.len() - i,
        {
            let d = &config[i];
            let account = parse_u32(d.name.as_str());
            let index = (i + 1) as u16;
            let n: u16 = if d.count == 0 {
                1
            } else {
                d.count
            };
            let ghost base = entries_view(diallers@);
            let mut j: u16 = 0;
            while j < n
                invariant
                    j <= n,
                    n == (if d.count == 0 { 1 } else { d.count }),
                    account == parse_u32_spec(d.name@),
                    entries_view(diallers@) == base + dialler_entries(*d, index).take(j as int),
                decreases n - j,
            {
                let name = get_account_name(j, account, d.name.as_str(), false);
                let ghost before = diallers@;
                diallers.push((name, index));
                proof {
                    assert(entries_view(diallers@) =~= entries_view(before).push((name@, index)));
                    assert(dialler_entries(*d, index).take(j + 1) =~= dialler_entries(*d, index).take(
                        j as int,
                    ).push(dialler_entries(*d, index)[j as int]));
                    assert(dialler_entries(*d, index)[j as int] == (name@, index));
                    assert(entries_view(diallers@) =~= base + dialler_entries(*d, index).take(j + 1));
                }
                j += 1;
            }
            proof {
                assert(dialler_entries(*d, index).take(j as int) =~= dialler_entries(*d, index));
            }
            i += 1;
        }
        ServerConfig { diallers, keys, send_naks }
    }

    fn lookup(&self, name: &str) -> (r: Option<u16>)
        ensures
            r == lookup_account(entries_view(self.diallers@), name@),
    {
        let mut i: usize = self.diallers.len();
        proof {
            assert(entries_view(self.diallers@).take(i as int) =~= entries_view(self.diallers@));
        }
        while i > 0
            invariant
                i <= self.diallers.len(),
                lookup_account(entries_view(self.diallers@), name@) == lookup_account(
                    entries_view(self.diallers@).take(i as int),
                    name@,
                ),
            decreases i,
        {
            let ghost e = entries_view(self.diallers@).take(i as int);
            proof {
                assert(e.drop_last() =~= entries_view(self.diallers@).take(i - 1));
            }
            if crate::text::str_eq(self.diallers[i - 1].0.as_str(), name) {
                return Some(self.diallers[i - 1].1);
            }
            i -= 1;
        }
        proof {
            assert(entries_view(self.diallers@).take(0) =~= Seq::<(Seq<char>, u16)>::empty());
        }
        None
    }

    /// Returns the key to decrypt `received_message` with.
    pub fn get_key_for_message(&self, received_message: &str) -> (r: Option<&str>)
        ensures
            crate::message::opt_str_view(r) == key_for_spec(
                entries_view(self.diallers@),
                keys_view(self.keys@),
                received_message@,
            ),
    {
        broadcast use vstd::std_specs::hash::group_hash_axioms;

        if self.diallers.len() > 0 {
            if let Ok(name) = parse_dc09_account_name(received_message) {
                if let Some(index) = self.lookup(name.as_str()) {
                    return match self.keys.get(&index) {
                        Some(k) => Some(k.as_str()),
                        None => None,
                    };
                }
            }
        }
        match self.keys.get(&0) {
            Some(k) => Some(k.as_str()),
            None => None,
        }
    }
}

/// The response to request `m`: ACK, or NAK, echoing account and sequence,
/// keeping receiver and line prefix, stamped with `ts`.
pub open spec fn response_model(m: MessageModel, nak: bool, ts: Timestamp) -> MessageModel {
    MessageModel {
        token: if nak {
            seq!['N', 'A', 'K']
        } else {
            seq!['A', 'C', 'K']
        },
        sequence: m.sequence,
        receiver: with_prefixed(None, m.receiver, 'R'),
        line_prefix: with_prefixed(None, m.line_prefix, 'L'),
        account: m.account,
        data: None,
        extended: seq![],
        timestamp: Some(timestamp_text(ts)),
    }
}

/// The response frame is encrypted exactly when the request was and a key is known.
pub open spec fn response_frame_ok(
    request: MessageModel,
    key: Option<Seq<char>>,
    nak: bool,
    ts: Timestamp,
    r: Seq<char>,
) -> bool {
    let resp = response_model(request, nak, ts);
    if starred(request.token) && key is Some {
        is_encrypted_frame_of(resp, encode_utf8(key->0), r)
    } else {
        r == frame_text(clear_body(resp))
    }
}

/// Builds the response frame to `msg`, stamped with `timestamp`. A NAK, like
/// an ACK, echoes the request's account and sequence number.
pub fn build_response_at(msg: DC09Message, key: Option<&str>, nak: bool, timestamp: Timestamp) -> (r:
    String)
    requires
        timestamp.wf(),
        starred(msg@.token) && key is Some ==> valid_key_len(encode_utf8(key->0@).len()),
    ensures
        response_frame_ok(msg@, crate::message::opt_str_view(key), nak, timestamp, r@),
{
    let was_encrypted = msg.was_encrypted();
    let token = if nak {
        proof {
            reveal_strlit("NAK");
            assert("NAK"@ =~= seq!['N', 'A', 'K']);
        }
        "NAK".to_owned()
    } else {
        proof {
            reveal_strlit("ACK");
            assert("ACK"@ =~= seq!['A', 'C', 'K']);
        }
        "ACK".to_owned()
    };
    let ghost m = msg@;
    let response = DC09Message::ack_at(token, msg.account, msg.sequence, timestamp).with_receiver(
        msg.receiver,
    ).with_line_prefix(msg.line_prefix);
    proof {
        assert(response@.token == response_model(m, nak, timestamp).token);
        assert(response@.receiver == response_model(m, nak, timestamp).receiver);
        assert(response@.line_prefix == response_model(m, nak, timestamp).line_prefix);
        assert(response@.extended == response_model(m, nak, timestamp).extended);
        assert(response@ == response_model(m, nak, timestamp));
    }
    if was_encrypted {
        if let Some(k) = key {
            match response.to_encrypted(k) {
                Some(f) => f,
                None => response.to_string(),
            }
        } else {
            response.to_string()
        }
    } else {
        response.to_string()
    }
}

/// Builds the response frame to `msg`, stamped with the current UTC time.
pub fn build_response_message(msg: DC09Message, key: Option<&str>, nak: bool) -> (r: String)
    requires
        starred(msg@.token) && key is Some ==> valid_key_len(encode_utf8(key->0@).len()),
    ensures
        exists|ts: Timestamp|
            ts.wf() && response_frame_ok(msg@, crate::message::opt_str_view(key), nak, ts, r@),
{
    let ts = Timestamp::now();
    build_response_at(msg, key, nak, ts)
}

/// Two dialler configurations agree on every field that the receiver reads.
pub open spec fn same_config(a: DiallerConfig, b: DiallerConfig) -> bool {
    a.name@ == b.name@ && a.count == b.count
}

/// Builds the receiver configuration from the configuration file, the
/// default key and the NAK switch.
pub fn create_server_config(scenarios: Option<&Scenarios>, key: Option<&str>, nak: bool) -> (r: ServerConfig)
    requires
        scenarios is Some ==> scenarios->0.diallers@.len() <= 0xFFFF,
    ensures
        keys_view(r.keys@) == keys_map_spec(
            match scenarios {
                Some(s) => s.diallers@,
                None => seq![],
            },
            opt_str_view(key),
            match scenarios {
                Some(s) => s.diallers@.len(),
                None => 0,
            },
        ),
        entries_view(r.diallers@) == match scenarios {
            Some(s) => config_entries(s.diallers@, s.diallers@.len()),
            None => seq![],
        },
        r.send_naks == nak,
{
    let keys = build_keys_map(scenarios, key);
    let mut diallers: Vec<DiallerConfig> = Vec::new();
    if let Some(s) = scenarios {
        let mut i: usize = 0;
        while i < s.diallers.len()
            invariant
                i <= s.diallers.len(),
                diallers@.len() == i,
                forall|k: int| 0 <= k < i ==> same_config(#[trigger] diallers@[k], s.diallers@[k]),
            decreases s.diallers.len() - i,
        {
            diallers.push(s.diallers[i].duplicate());
            i += 1;
        }
        proof {
            lemma_config_entries_same(diallers@, s.diallers@, s.diallers@.len());
        }
    }
    ServerConfig::new(diallers, keys, nak)
}

proof fn lemma_config_entries_same(a: Seq<DiallerConfig>, b: Seq<DiallerConfig>, n: nat)
    requires
        a.len() == b.len(),
        n <= a.len(),
        forall|k: int| 0 <= k < a.len() ==> same_config(#[trigger] a[k], b[k]),
    ensures
        config_entries(a, n) == config_entries(b, n),
    decreases n,
{
    if n > 0 {
        lemma_config_entries_same(a, b, (n - 1) as nat);
        assert(same_config(a[n - 1], b[n - 1]));
        assert(dialler_entries(a[n - 1], n as u16) =~= dialler_entries(b[n - 1], n as u16));
    }
}

/// Answers one received frame: parses it with the key of its account and
/// builds the ACK or NAK, or returns why the frame was rejected.
pub fn build_reply(received_message: &str, config: &ServerConfig) -> (r: Result<String, DC09Error>)
    ensures
        ({
            let key = key_for_spec(entries_view(config.diallers@), keys_view(config.keys@), received_message@);
            match r {
                Err(e) => parse_spec(received_message@, key) == Err::<MessageModel, DC09Error>(e),
                Ok(f) => parse_spec(received_message@, key) is Ok && exists|ts: Timestamp|
                    ts.wf() && response_frame_ok(
                        parse_spec(received_message@, key)->Ok_0,
                        key,
                        config.send_naks,
                        ts,
                        f@,
                    ),
            }
        }),
{
    let key = config.get_key_for_message(received_message);
    match DC09Message::try_from(received_message, key) {
        Ok(msg) => {
            proof {
                if starred(msg@.token) && key is Some {
                    assert(opt_str_view(key) == Some(key->0@));
                }
            }
            Ok(build_response_message(msg, key, config.send_naks))
        },
        Err(e) => Err(e),
    }
}

/// What to do with the bytes of one received frame.
pub enum FrameOutcome {
    /// Send this response back.
    Reply(String),
    /// The frame was rejected for this reason.
    Rejected(DC09Error),
    /// The bytes are not UTF-8 text.
    NotText,
}

/// Decides the answer to the bytes of one received frame: they must be UTF-8
/// text, and then [`build_reply`] answers them.
pub fn process_bytes(buffer: &[u8], config: &ServerConfig) -> (r: FrameOutcome)
    ensures
        (r is NotText) <==> !valid_utf8(buffer@),
        ({
            let text = decode_utf8(buffer@);
            let key = key_for_spec(entries_view(config.diallers@), keys_view(config.keys@), text);
            match r {
                FrameOutcome::Rejected(e) => parse_spec(text, key) == Err::<MessageModel, DC09Error>(e),
                FrameOutcome::Reply(f) => parse_spec(text, key) is Ok && exists|ts: Timestamp|
                    ts.wf() && response_frame_ok(parse_spec(text, key)->Ok_0, key, config.send_naks, ts, f@),
                FrameOutcome::NotText => true,
            }
        }),
{
    let text = match string_from_utf8(vstd::slice::slice_to_vec(buffer)) {
        Some(t) => t,
        None => return FrameOutcome::NotText,
    };
    proof {
        vstd::utf8::encode_utf8_decode_utf8(text@);
    }
    match build_reply(text.as_str(), config) {
        Ok(f) => FrameOutcome::Reply(f),
        Err(e) => FrameOutcome::Rejected(e),
    }
}

} // verus!
