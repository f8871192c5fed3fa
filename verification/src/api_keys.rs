//! Block explorer API keys: collecting a family of numbered keys and sharing
//! them across the chains that use the same explorer.
use vstd::prelude::*;
use rand::seq::SliceRandom;
use vstd::string::StrSliceExecFns;
use crate::types::Chain;
use crate::text::{owned, push_str, push_decimal, decimal, str_trim, trimmed, strs, copy_strings};

verus! {

/// The API keys of each chain.
#[derive(Debug, Clone)]
pub struct ApiKeyConfig {
    ethereum: Option<Vec<String>>,
    polygon: Option<Vec<String>>,
    arbitrum: Option<Vec<String>>,
}

/// The keys of a chain as text, if it has any entry.
pub open spec fn opt_strs(o: Option<Vec<String>>) -> Option<Seq<Seq<char>>> {
    match o {
        Some(v) => Some(strs(v@)),
        None => None,
    }
}

impl ApiKeyConfig {
    /// The keys configured for `c`.
    pub closed spec fn keys_of(&self, c: Chain) -> Option<Seq<Seq<char>>> {
        match c {
            Chain::Ethereum => opt_strs(self.ethereum),
            Chain::Polygon => opt_strs(self.polygon),
            Chain::Arbitrum => opt_strs(self.arbitrum),
        }
    }

    /// A configuration without keys.
    pub fn new() -> (r: Self)
        ensures
            forall|c: Chain| r.keys_of(c) is None,
    {
        ApiKeyConfig { ethereum: None, polygon: None, arbitrum: None }
    }

    /// This configuration with the keys of `chain` set to `keys`.
    pub fn with_keys(self, chain: Chain, keys: Vec<String>) -> (r: Self)
        ensures
            r.keys_of(chain) == Some(strs(keys@)),
            forall|c: Chain| c != chain ==> r.keys_of(c) == self.keys_of(c),
    {
        let mut r = self;
        match chain {
            Chain::Ethereum => r.ethereum = Some(keys),
            Chain::Polygon => r.polygon = Some(keys),
            Chain::Arbitrum => r.arbitrum = Some(keys),
        }
        r
    }

    /// The keys of `chain`, if any were set.
    pub fn get(&self, chain: Chain) -> (r: Option<&[String]>)
        ensures
            self.keys_of(chain) == match r {
                Some(v) => Some(strs(v@)),
                None => None::<Seq<Seq<char>>>,
            },
    {
        let o = match chain {
            Chain::Ethereum => &self.ethereum,
            Chain::Polygon => &self.polygon,
            Chain::Arbitrum => &self.arbitrum,
        };
        match o {
            Some(v) => Some(v.as_slice()),
            None => None,
        }
    }

    /// Whether no chain has keys set.
    pub fn is_empty(&self) -> (r: bool)
        ensures
            r == forall|c: Chain| self.keys_of(c) is None,
    {
        let r = self.ethereum.is_none() && self.polygon.is_none() && self.arbitrum.is_none();
        proof {
            if !r {
                if self.ethereum.is_some() {
                    assert(self.keys_of(Chain::Ethereum) is Some);
                } else if self.polygon.is_some() {
                    assert(self.keys_of(Chain::Polygon) is Some);
                } else {
                    assert(self.keys_of(Chain::Arbitrum) is Some);
                }
            }
        }
        r
    }
}

/// The name of key `index` (from 1) of the family `prefix`: `PREFIX_API_KEY`,
/// then `PREFIX_API_KEY_2` and so on.
pub open spec fn key_var_name(prefix: Seq<char>, index: nat) -> Seq<char> {
    if index == 1 {
        prefix + "_API_KEY"@
    } else {
        prefix + "_API_KEY_"@ + decimal(index)
    }
}

/// `lookup` may answer `v` for the variable named `name`.
pub open spec fn lookup_answers<F: FnMut(&str) -> Option<String>>(f: F, name: Seq<char>, v: Option<String>) -> bool {
    exists|x: &str| x@ == name && #[trigger] call_ensures(f, (x,), v)
}

/// The values among `answers` that are present and not blank, in order.
pub open spec fn kept_values(answers: Seq<Option<String>>) -> Seq<Seq<char>>
    decreases answers.len(),
{
    if answers.len() == 0 {
        Seq::empty()
    } else {
        kept_values(answers.drop_last()) + match answers.last() {
            Some(v) => if trimmed(v@).len() > 0 { seq![v@] } else { Seq::empty() },
            None => Seq::empty(),
        }
    }
}

/// `answers` are what `lookup` answered for keys 1 to `answers.len()` of `prefix`.
pub open spec fn family_answers<F: FnMut(&str) -> Option<String>>(f: F, prefix: Seq<char>, answers: Seq<Option<String>>) -> bool {
    forall|k: int| 0 <= k < answers.len() ==> lookup_answers(f, key_var_name(prefix, (k + 1) as nat), #[trigger] answers[k])
}

/// The name of key `index` of the family `prefix`.
pub fn key_variable_name(prefix: &str, index: usize) -> (r: String)
    ensures
        r@ == key_var_name(prefix@, index as nat),
{
    let mut name = owned(prefix);
    if index == 1 {
        push_str(&mut name, "_API_KEY");
    } else {
        push_str(&mut name, "_API_KEY_");
        push_decimal(&mut name, index);
    }
    name
}

/// The non-blank values of the variables `PREFIX_API_KEY`, `PREFIX_API_KEY_2`
/// up to `PREFIX_API_KEY_6`, as `lookup` gives them, in that order.
pub fn collect_key_family<F>(prefix: &str, mut lookup: F) -> (r: Vec<String>)
    where
        F: FnMut(&str) -> Option<String>,
    requires
        forall|s: &str| call_requires(lookup, (s,)),
    ensures
        exists|answers: Seq<Option<String>>|
            answers.len() == 6 && #[trigger] family_answers(lookup, prefix@, answers)
                && strs(r@) == kept_values(answers),
{
    let mut keys: Vec<String> = Vec::new();
    let ghost mut answers: Seq<Option<String>> = Seq::empty();
    let ghost f0 = lookup;
    let mut index: usize = 1;
    while index <= 6
        invariant
            1 <= index <= 7,
            lookup == f0,
            answers.len() == index - 1,
            forall|s: &str| call_requires(lookup, (s,)),
            family_answers(lookup, prefix@, answers),
            strs(keys@) == kept_values(answers),
        decreases 7 - index,
    {
        let name = key_variable_name(prefix, index);
        let value = lookup(name.as_str());
        let ghost old_answers = answers;
        proof {
            assert(lookup_answers(lookup, key_var_name(prefix@, index as nat), value));
            answers = answers.push(value);
            assert(answers.drop_last() =~= answers.subrange(0, answers.len() - 1));
            assert forall|k: int| 0 <= k < answers.len() implies lookup_answers(
                lookup,
                key_var_name(prefix@, (k + 1) as nat),
                #[trigger] answers[k],
            ) by {
                if k < answers.len() - 1 {
                    assert(answers[k] == answers.drop_last()[k]);
                }
            }
            assert(answers.drop_last() =~= old_answers);
            assert(kept_values(answers) == kept_values(old_answers) + match value {
                Some(v) => if trimmed(v@).len() > 0 { seq![v@] } else { Seq::empty() },
                None => Seq::empty(),
            });
        }
        match value {
            Some(v) => {
                if str_trim(v.as_str()).unicode_len() > 0 {
                    assert(trimmed(v@).len() > 0);
                    keys.push(v);
                    proof {
                        assert(strs(keys@) =~= strs(keys@.drop_last()).push(keys@.last()@));
                    }
                } else {
                    assert(trimmed(v@).len() == 0);
                    assert(kept_values(answers) =~= kept_values(old_answers));
                }
            },
            None => {
                assert(kept_values(answers) =~= kept_values(old_answers));
            },
        }
        index = index + 1;
    }
    keys
}

/// `rand`'s `SliceRandom::shuffle` with the thread's generator. The order that
/// comes out depends on chance; what holds is that the same keys come out.
#[verifier::external_body]
fn shuffle_keys(keys: &mut Vec<String>)
    ensures
        strs(final(keys)@).to_multiset() == strs(old(keys)@).to_multiset(),
        final(keys)@.len() == old(keys)@.len(),
{
    keys.shuffle(&mut rand::thread_rng());
}

/// The keys configured from the variables that `lookup` answers: the
/// Etherscan family, in some order, for Ethereum, Polygon and Arbitrum alike,
/// or no keys at all when the family is empty.
pub fn load_api_keys_from_lookup<F>(lookup: F) -> (r: ApiKeyConfig)
    where
        F: FnMut(&str) -> Option<String>,
    requires
        forall|s: &str| call_requires(lookup, (s,)),
    ensures
        exists|answers: Seq<Option<String>>|
            answers.len() == 6 && #[trigger] family_answers(lookup, "ETHERSCAN"@, answers) && {
                let found = kept_values(answers);
                if found.len() == 0 {
                    forall|c: Chain| r.keys_of(c) is None
                } else {
                    exists|order: Seq<Seq<char>>|
                        order.to_multiset() == found.to_multiset()
                            && forall|c: Chain| #[trigger] r.keys_of(c) == Some(order)
                }
            },
{
    let config = ApiKeyConfig::new();
    let mut keys = collect_key_family("ETHERSCAN", lookup);
    if keys.len() == 0 {
        return config;
    }
    shuffle_keys(&mut keys);
    let ghost order = strs(keys@);
    let k1 = copy_strings(&keys);
    let k2 = copy_strings(&keys);
    let config = config.with_keys(Chain::Ethereum, k1);
    let config = config.with_keys(Chain::Polygon, k2);
    let config = config.with_keys(Chain::Arbitrum, keys);
    assert forall|c: Chain| #[trigger] config.keys_of(c) == Some(order) by {
        match c {
            Chain::Ethereum => {},
            Chain::Polygon => {},
            Chain::Arbitrum => {},
        }
    }
    config
}

} // verus!
