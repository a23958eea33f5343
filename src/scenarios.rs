//! Scenario and dialler configuration, with its validation and lookups.
use vstd::prelude::*;
use vstd::utf8::encode_utf8;
use crate::crypto::valid_key_len;
use crate::text::{clone_opt, push_str};

verus! {

/// Configuration of one dialler, or of `count` diallers that share it.
#[derive(Debug, Default, Clone)]
pub struct DiallerConfig {
    pub name: String,
    pub key: Option<String>,
    pub receiver: Option<String>,
    pub prefix: Option<String>,
    pub scenarios: Option<Vec<u16>>,
    pub sequence: u16,
    pub udp: bool,
    pub count: u16,
}

impl DiallerConfig {
    /// Creates a [`DiallerConfig`] with no key, receiver, prefix or scenarios.
    pub fn new(name: String, sequence: u16, udp: bool, count: u16) -> (r: Self)
        ensures
            r.name@ == name@,
            r.key is None,
            r.receiver is None,
            r.prefix is None,
            r.scenarios is None,
            r.sequence == sequence,
            r.udp == udp,
            r.count == count,
    {
        Self { name, key: None, receiver: None, prefix: None, scenarios: None, sequence, udp, count }
    }
}

fn copy_ids(v: &Vec<u16>) -> (r: Vec<u16>)
    ensures
        r@ == v@,
{
    let mut out: Vec<u16> = Vec::new();
    let mut i: usize = 0;
    while i < v.len()
        invariant
            i <= v.len(),
            out@ == v@.take(i as int),
        decreases v.len() - i,
    {
        out.push(v[i]);
        proof {
            assert(out@ =~= v@.take(i + 1));
        }
        i += 1;
    }
    proof {
        assert(v@.take(i as int) =~= v@);
    }
    out
}

impl DiallerConfig {
    /// A copy of this configuration.
    pub fn duplicate(&self) -> (r: Self)
        ensures
            r.name@ == self.name@,
            crate::message::opt_view(r.key) == crate::message::opt_view(self.key),
            crate::message::opt_view(r.receiver) == crate::message::opt_view(self.receiver),
            crate::message::opt_view(r.prefix) == crate::message::opt_view(self.prefix),
            r.scenarios is Some <==> self.scenarios is Some,
            r.scenarios is Some ==> r.scenarios->0@ == self.scenarios->0@,
            r.sequence == self.sequence,
            r.udp == self.udp,
            r.count == self.count,
    {
        DiallerConfig {
            name: self.name.clone(),
            key: clone_opt(&self.key),
            receiver: clone_opt(&self.receiver),
            prefix: clone_opt(&self.prefix),
            scenarios: match &self.scenarios {
                Some(v) => Some(copy_ids(v)),
                None => None,
            },
            sequence: self.sequence,
            udp: self.udp,
            count: self.count,
        }
    }
}

/// A scenario: an ordered list of signals.
#[derive(Debug, Default, Clone)]
pub struct ScenarioConfig {
    pub id: u16,
    pub sequence: Vec<SignalConfig>,
}

/// One signal of a scenario.
#[derive(Debug, Default, Clone)]
pub struct SignalConfig {
    pub token: String,
    pub message: Option<String>,
    pub delay: u16,
    pub repeat: u16,
}

impl SignalConfig {
    /// Creates a [`SignalConfig`] with no delay.
    pub fn new(token: String, message: Option<String>, repeat: u16) -> (r: Self)
        ensures
            r.token@ == token@,
            crate::message::opt_view(r.message) == crate::message::opt_view(message),
            r.delay == 0,
            r.repeat == repeat,
    {
        Self { token, message, delay: 0, repeat }
    }
}

/// The diallers and scenarios of a run.
#[derive(Debug, Default, Clone)]
pub struct Scenarios {
    pub diallers: Vec<DiallerConfig>,
    pub scenarios: Vec<ScenarioConfig>,
}

/// Index of the first dialler named `account`, or the number of diallers.
pub open spec fn find_dialler(ds: Seq<DiallerConfig>, account: Seq<char>) -> int {
    if exists|i: int| 0 <= i < ds.len() && ds[i].name@ == account {
        choose|i: int|
            0 <= i < ds.len() && ds[i].name@ == account && forall|j: int|
                0 <= j < i ==> ds[j].name@ != account
    } else {
        ds.len() as int
    }
}

/// Index of the first scenario with `id`, or the number of scenarios.
pub open spec fn find_scenario(ss: Seq<ScenarioConfig>, id: u16) -> int {
    if exists|i: int| 0 <= i < ss.len() && ss[i].id == id {
        choose|i: int| 0 <= i < ss.len() && ss[i].id == id && forall|j: int| 0 <= j < i ==> ss[j].id != id
    } else {
        ss.len() as int
    }
}

/// The dialler's key, if any, has a valid length in bytes.
pub open spec fn key_ok(d: DiallerConfig) -> bool {
    match d.key {
        Some(k) => valid_key_len(encode_utf8(k@).len()),
        None => true,
    }
}

/// Index of the first dialler with a key of invalid length, or the number of diallers.
pub open spec fn first_bad_key(ds: Seq<DiallerConfig>) -> int {
    if exists|i: int| 0 <= i < ds.len() && !key_ok(ds[i]) {
        choose|i: int| 0 <= i < ds.len() && !key_ok(ds[i]) && forall|j: int| 0 <= j < i ==> key_ok(ds[j])
    } else {
        ds.len() as int
    }
}

proof fn lemma_first_index<T>(s: Seq<T>, p: spec_fn(T) -> bool, i: int)
    requires
        0 <= i < s.len(),
        p(s[i]),
        forall|j: int| 0 <= j < i ==> !p(s[j]),
    ensures
        forall|k: int|
            0 <= k < s.len() && p(s[k]) && (forall|j: int| 0 <= j < k ==> !p(s[j])) ==> k == i,
{
    assert forall|k: int|
        0 <= k < s.len() && p(s[k]) && (forall|j: int| 0 <= j < k ==> !p(s[j])) implies k == i by {
        if k < i {
            assert(!p(s[k]));
        } else if k > i {
            assert(!p(s[i]));
        }
    }
}

/// The message for a dialler whose key has an invalid length.
pub open spec fn bad_key_message(name: Seq<char>) -> Seq<char> {
    name + ": key length must be 16, 24 or 32 bytes"@
}

impl Scenarios {
    /// Returns the scenario ids of the first dialler named `account`.
    pub fn get_scenario_ids(&self, account: &str) -> (r: Option<&[u16]>)
        ensures
            ({
                let i = find_dialler(self.diallers@, account@);
                match r {
                    Some(ids) => i < self.diallers@.len() && self.diallers@[i].scenarios is Some
                        && ids@ == self.diallers@[i].scenarios->0@,
                    None => i == self.diallers@.len() || self.diallers@[i].scenarios is None,
                }
            }),
    {
        let mut i: usize = 0;
        while i < self.diallers.len()
            invariant
                i <= self.diallers.len(),
                forall|j: int| 0 <= j < i ==> self.diallers@[j].name@ != account@,
            decreases self.diallers.len() - i,
        {
            let d = &self.diallers[i];
            if crate::text::str_eq(d.name.as_str(), account) {
                proof {
                    let p = |x: DiallerConfig| x.name@ == account@;
                    lemma_first_index(self.diallers@, p, i as int);
                }
                return match &d.scenarios {
                    Some(v) => Some(v.as_slice()),
                    None => None,
                };
            }
            i += 1;
        }
        None
    }

    /// Returns the signals of the first scenario with `scenario_id`.
    pub fn get_sequence(&self, scenario_id: u16) -> (r: Option<&Vec<SignalConfig>>)
        ensures
            ({
                let i = find_scenario(self.scenarios@, scenario_id);
                match r {
                    Some(v) => i < self.scenarios@.len() && v@ == self.scenarios@[i].sequence@,
                    None => i == self.scenarios@.len(),
                }
            }),
    {
        let mut i: usize = 0;
        while i < self.scenarios.len()
            invariant
                i <= self.scenarios.len(),
                forall|j: int| 0 <= j < i ==> self.scenarios@[j].id != scenario_id,
            decreases self.scenarios.len() - i,
        {
            if self.scenarios[i].id == scenario_id {
                proof {
                    let p = |x: ScenarioConfig| x.id == scenario_id;
                    lemma_first_index(self.scenarios@, p, i as int);
                }
                return Some(&self.scenarios[i].sequence);
            }
            i += 1;
        }
        None
    }

    /// Checks that every dialler key has a length of 16, 24 or 32 bytes; the
    /// error names the first dialler that has not.
    pub fn validate(&self) -> (r: Result<(), String>)
        ensures
            ({
                let i = first_bad_key(self.diallers@);
                match r {
                    Ok(()) => i == self.diallers@.len(),
                    Err(e) => i < self.diallers@.len() && e@ == bad_key_message(
                        self.diallers@[i].name@,
                    ),
                }
            }),
    {
        let mut i: usize = 0;
        while i < self.diallers.len()
            invariant
                i <= self.diallers.len(),
                forall|j: int| 0 <= j < i ==> key_ok(#[trigger] self.diallers@[j]),
            decreases self.diallers.len() - i,
        {
            let d = &self.diallers[i];
            if let Some(key) = &d.key {
                let n = key.as_str().as_bytes().len();
                if !(n == 16 || n == 24 || n == 32) {
                    proof {
                        let p = |x: DiallerConfig| !key_ok(x);
                        lemma_first_index(self.diallers@, p, i as int);
                    }
                    let mut e = d.name.clone();
                    push_str(&mut e, ": key length must be 16, 24 or 32 bytes");
                    return Err(e);
                }
            }
            i += 1;
        }
        Ok(())
    }
}

} // verus!
