//! Detection of honeypot contracts: `tx.origin` read inside the core token
//! functions or inside known honeypot helpers. A contract counts as a
//! honeypot only when two or more of these patterns match.
use vstd::prelude::*;
use crate::text::{owned, strs};
use crate::pattern_match::{fancy_is_match, fancy_valid};
use crate::scan_rules::{fancy_matches, fancy_hit};

verus! {

/// The names of the honeypot patterns.
pub open spec fn honeypot_names() -> Seq<Seq<char>> {
    seq![
        "balance_tx_origin"@,
        "allowance_tx_origin"@,
        "transfer_tx_origin"@,
        "hidden_fee_taxPayer"@,
        "isSuper_tx_origin"@,
    ]
}

/// The honeypot patterns, in the order of their names.
pub open spec fn honeypot_patterns() -> Seq<Seq<char>> {
    seq![
        "function\\s+balanceOf[^}]{0,500}(tx\\.origin|origin\\(\\))"@,
        "function\\s+allowance[^}]{0,500}(tx\\.origin|origin\\(\\))"@,
        "function\\s+transfer[^}]{0,500}(tx\\.origin|origin\\(\\))"@,
        "function\\s+_taxPayer[^}]{0,300}(tx\\.origin|origin\\(\\))"@,
        "function\\s+_isSuper[^}]{0,200}(tx\\.origin|origin\\(\\))"@,
    ]
}

/// The names of the first `n` patterns that match `source`, in order.
pub open spec fn honeypot_hits(source: Seq<char>, n: nat) -> Seq<Seq<char>>
    decreases n,
{
    if n == 0 {
        Seq::empty()
    } else {
        let prev = honeypot_hits(source, (n - 1) as nat);
        if fancy_hit(honeypot_patterns()[n - 1], source) { prev.push(honeypot_names()[n - 1]) } else { prev }
    }
}

/// Detects honeypot patterns.
pub struct HoneypotFilter {
    names: Vec<String>,
    patterns: Vec<String>,
}

impl HoneypotFilter {
    /// The filter's pattern names and patterns are the honeypot ones.
    pub closed spec fn wf(&self) -> bool {
        strs(self.names@) == honeypot_names() && strs(self.patterns@) == honeypot_patterns()
    }

    /// The filter with the honeypot patterns; the text of the first pattern
    /// that does not compile when one does not.
    pub fn new() -> (r: Result<Self, String>)
        ensures
            match r {
                Ok(f) => f.wf() && forall|i: int| 0 <= i < 5 ==> fancy_valid(#[trigger] honeypot_patterns()[i]),
                Err(p) => exists|i: int| 0 <= i < 5 && p@ == honeypot_patterns()[i] && !fancy_valid(
                    #[trigger] honeypot_patterns()[i],
                ),
            },
    {
        let names = vec![
            owned("balance_tx_origin"),
            owned("allowance_tx_origin"),
            owned("transfer_tx_origin"),
            owned("hidden_fee_taxPayer"),
            owned("isSuper_tx_origin"),
        ];
        let patterns = vec![
            owned("function\\s+balanceOf[^}]{0,500}(tx\\.origin|origin\\(\\))"),
            owned("function\\s+allowance[^}]{0,500}(tx\\.origin|origin\\(\\))"),
            owned("function\\s+transfer[^}]{0,500}(tx\\.origin|origin\\(\\))"),
            owned("function\\s+_taxPayer[^}]{0,300}(tx\\.origin|origin\\(\\))"),
            owned("function\\s+_isSuper[^}]{0,200}(tx\\.origin|origin\\(\\))"),
        ];
        assert(strs(names@) =~= honeypot_names());
        assert(strs(patterns@) =~= honeypot_patterns());
        let mut i: usize = 0;
        while i < patterns.len()
            invariant
                i <= patterns.len(),
                strs(patterns@) == honeypot_patterns(),
                patterns.len() == 5,
                forall|j: int| 0 <= j < i ==> fancy_valid(#[trigger] honeypot_patterns()[j]),
            decreases patterns.len() - i,
        {
            assert(patterns@[i as int]@ == honeypot_patterns()[i as int]);
            if fancy_is_match(patterns[i].as_str(), "").is_none() {
                return Err(owned(patterns[i].as_str()));
            }
            i = i + 1;
        }
        Ok(HoneypotFilter { names, patterns })
    }

    /// The names of the patterns that match `source`, and whether there are
    /// two or more of them.
    pub fn is_honeypot(&self, source: &str) -> (r: (bool, Vec<String>))
        requires
            self.wf(),
        ensures
            strs(r.1@) == honeypot_hits(source@, 5),
            r.0 == (r.1.len() >= 2),
    {
        let mut found: Vec<String> = Vec::new();
        assert(strs(self.patterns@).len() == self.patterns@.len());
        assert(strs(self.names@).len() == self.names@.len());
        assert(honeypot_patterns().len() == 5);
        assert(honeypot_names().len() == 5);
        assert(strs(found@) =~= honeypot_hits(source@, 0));
        let mut i: usize = 0;
        while i < self.patterns.len()
            invariant
                self.wf(),
                i <= self.patterns.len(),
                self.patterns.len() == 5,
                self.names.len() == 5,
                strs(found@) == honeypot_hits(source@, i as nat),
            decreases self.patterns.len() - i,
        {
            assert(self.patterns@[i as int]@ == honeypot_patterns()[i as int]);
            assert(self.names@[i as int]@ == honeypot_names()[i as int]);
            let ghost before = found@;
            if fancy_matches(self.patterns[i].as_str(), source) {
                found.push(owned(self.names[i].as_str()));
                assert(strs(found@) =~= strs(before).push(honeypot_names()[i as int]));
            }
            i = i + 1;
        }
        (found.len() >= 2, found)
    }
}

} // verus!
