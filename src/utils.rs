//! Argument checks, the shared key map, and account naming.
use std::collections::HashMap;
use vstd::prelude::*;
use vstd::utf8::encode_utf8;
use crate::crypto::valid_key_len;
use crate::scenarios::Scenarios;
use crate::text::{all_dec, all_hex, chars_of, dec_value, digits, is_hex_char, push_digits};

verus! {

/// Keys by index: 0 is the default key, `i + 1` the key of the `i`-th configured dialler.
pub type KeysMap = HashMap<u16, String>;

/// `first` followed by one to six hexadecimal digits, and nothing else.
pub open spec fn is_prefixed_hex(s: Seq<char>, first: char) -> bool {
    2 <= s.len() <= 7 && s[0] == first && all_hex(s.drop_first())
}

fn prefixed_hex(s: &str, first: char) -> (r: bool)
    ensures
        r == is_prefixed_hex(s@, first),
{
    let v = chars_of(s);
    if v.len() < 2 || v.len() > 7 || v[0] != first {
        return false;
    }
    let mut i: usize = 1;
    while i < v.len()
        invariant
            1 <= i <= v.len(),
            v@ == s@,
            forall|k: int| 1 <= k < i ==> is_hex_char(#[trigger] v@[k]),
        decreases v.len() - i,
    {
        let c = v[i];
        if !(('0' <= c && c <= '9') || ('A' <= c && c <= 'F') || ('a' <= c && c <= 'f')) {
            assert(!is_hex_char(s@.drop_first()[i - 1]));
            return false;
        }
        i += 1;
    }
    assert forall|k: int| 0 <= k < s@.drop_first().len() implies is_hex_char(
        #[trigger] s@.drop_first()[k],
    ) by {
        assert(s@.drop_first()[k] == v@[k + 1]);
    }
    true
}

/// True if `s` is a receiver number: `R` and one to six hexadecimal digits.
pub fn is_receiver_valid(s: &str) -> (r: bool)
    ensures
        r == is_prefixed_hex(s@, 'R'),
{
    prefixed_hex(s, 'R')
}

/// True if `s` is an account prefix (line number): `L` and one to six hexadecimal digits.
pub fn is_account_prefix_valid(s: &str) -> (r: bool)
    ensures
        r == is_prefixed_hex(s@, 'L'),
{
    prefixed_hex(s, 'L')
}

/// Accepts a key of 16, 24 or 32 bytes.
pub fn parse_key(s: &str) -> (r: Result<String, String>)
    ensures
        match r {
            Ok(k) => valid_key_len(encode_utf8(s@).len()) && k@ == s@,
            Err(e) => !valid_key_len(encode_utf8(s@).len()) && e@
                == "key length must be 16, 24 or 32 bytes"@,
        },
{
    let n = s.as_bytes().len();
    if n == 16 || n == 24 || n == 32 {
        Ok(s.to_owned())
    } else {
        Err("key length must be 16, 24 or 32 bytes".to_owned())
    }
}

/// Accepts an account prefix (receiver line number).
pub fn parse_account_prefix(s: &str) -> (r: Result<String, String>)
    ensures
        match r {
            Ok(k) => is_prefixed_hex(s@, 'L') && k@ == s@,
            Err(e) => !is_prefixed_hex(s@, 'L') && e@
                == "invalid account prefix (receiver line number)"@,
        },
{
    if is_account_prefix_valid(s) {
        Ok(s.to_owned())
    } else {
        Err("invalid account prefix (receiver line number)".to_owned())
    }
}

/// Accepts a receiver number.
pub fn parse_receiver(s: &str) -> (r: Result<String, String>)
    ensures
        match r {
            Ok(k) => is_prefixed_hex(s@, 'R') && k@ == s@,
            Err(e) => !is_prefixed_hex(s@, 'R') && e@ == "invalid receiver number"@,
        },
{
    if is_receiver_valid(s) {
        Ok(s.to_owned())
    } else {
        Err("invalid receiver number".to_owned())
    }
}

/// The key map after the default key and the keys of the first `n` diallers.
pub open spec fn keys_map_spec(
    ds: Seq<crate::scenarios::DiallerConfig>,
    default_key: Option<Seq<char>>,
    n: nat,
) -> Map<u16, Seq<char>>
    decreases n,
{
    if n == 0 {
        match default_key {
            Some(k) => map![0u16 => k],
            None => Map::empty(),
        }
    } else {
        let m = keys_map_spec(ds, default_key, (n - 1) as nat);
        match ds[n - 1].key {
            Some(k) => m.insert(n as u16, k@),
            None => m,
        }
    }
}

pub open spec fn keys_view(m: Map<u16, String>) -> Map<u16, Seq<char>> {
    m.map_values(|s: String| s@)
}

/// Builds the map of all keys given to the program.
pub fn build_keys_map(scenarios: Option<&Scenarios>, default_key: Option<&str>) -> (r: KeysMap)
    requires
        scenarios is Some ==> scenarios->0.diallers@.len() <= 0xFFFF,
    ensures
        keys_view(r@) == keys_map_spec(
            match scenarios {
                Some(s) => s.diallers@,
                None => seq![],
            },
            crate::message::opt_str_view(default_key),
            match scenarios {
                Some(s) => s.diallers@.len(),
                None => 0,
            },
        ),
{
    broadcast use vstd::std_specs::hash::group_hash_axioms;

    let mut result: KeysMap = HashMap::new();
    if let Some(key) = default_key {
        result.insert(0, key.to_owned());
    }
    proof {
        assert(keys_view(result@) =~= keys_map_spec(seq![], crate::message::opt_str_view(default_key), 0));
    }
    if let Some(s) = scenarios {
        let ghost ds = s.diallers@;
        proof {
            assert(keys_map_spec(seq![], crate::message::opt_str_view(default_key), 0) == keys_map_spec(
                ds,
                crate::message::opt_str_view(default_key),
                0,
            ));
        }
        let mut i: usize = 0;
        while i < s.diallers.len()
            invariant
                i <= s.diallers.len() <= 0xFFFF,
                ds == s.diallers@,
                keys_view(result@) == keys_map_spec(ds, crate::message::opt_str_view(default_key), i as nat),
            decreases s.diallers.len() - i,
        {
            if let Some(key) = &s.diallers[i].key {
                result.insert((i + 1) as u16, key.clone());
                proof {
                    assert(keys_view(result@) =~= keys_map_spec(
                        ds,
                        crate::message::opt_str_view(default_key),
                        (i + 1) as nat,
                    ));
                }
            }
            i += 1;
        }
    }
    result
}

/// `n` in decimal, without padding.
pub open spec fn decimal(n: nat) -> Seq<char> {
    digits(n, 10, 1)
}

/// An unsigned decimal number as `str::parse::<u32>` reads it: an optional `+`,
/// then one or more digits, with a value that fits in 32 bits.
pub open spec fn parse_u32_spec(s: Seq<char>) -> Option<u32> {
    let d = if s.len() > 0 && s[0] == '+' {
        s.drop_first()
    } else {
        s
    };
    if d.len() == 0 || !all_dec(d) || dec_value(d) > u32::MAX {
        None
    } else {
        Some(dec_value(d) as u32)
    }
}

/// Relies on `str::parse::<u32>`: an optional `+` and decimal digits, within range.
#[verifier::external_body]
pub(crate) fn parse_u32(s: &str) -> (r: Option<u32>)
    ensures
        r == parse_u32_spec(s@),
{
    s.parse::<u32>().ok()
}

/// The account name of the `index`-th dialler made from one configuration.
pub open spec fn account_name_spec(
    index: u16,
    account_num: Option<u32>,
    account_str: Seq<char>,
    fixed: bool,
) -> Seq<char> {
    if fixed || account_num is None {
        account_str
    } else {
        decimal(account_num->0 as nat + index as nat)
    }
}

/// Returns `account_num + index` in decimal, or `account_str` when there is no
/// number or the account is fixed.
pub fn get_account_name(index: u16, account_num: Option<u32>, account_str: &str, fixed: bool) -> (r:
    String)
    ensures
        r@ == account_name_spec(index, account_num, account_str@, fixed),
{
    if fixed {
        account_str.to_owned()
    } else {
        match account_num {
            None => account_str.to_owned(),
            Some(a) => {
                let mut out = String::new();
                push_digits(&mut out, a as u64 + index as u64, 10, 1);
                proof {
                    assert(out@ =~= decimal(a as nat + index as nat));
                }
                out
            },
        }
    }
}

} // verus!
