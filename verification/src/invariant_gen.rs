//! Candidate invariants for a contract, guessed from its source, and a
//! Foundry invariant test file that states them.
use vstd::prelude::*;
use crate::text::{contains, str_has, push_str, push_decimal, decimal, str_slice, sbytes, owned};
use crate::pattern_match::{regex_capture_spans, regex_valid, regex_group_spans};

verus! {

/// What an invariant protects.
#[derive(Debug, Clone, Copy, PartialEq, Eq, Structural)]
pub enum InvariantCategory {
    BalanceConservation,
    SupplyConservation,
    MonotonicIncrease,
    NonZero,
    BoundedValue,
    AccessControl,
}

/// One generated invariant; its confidence is a whole percentage.
#[derive(Debug, Clone)]
pub struct GeneratedInvariant {
    pub name: String,
    pub description: String,
    pub solidity_code: String,
    pub confidence_percent: u32,
    pub category: InvariantCategory,
}

/// A generated invariant as plain text and numbers.
pub struct InvariantText {
    pub name: Seq<char>,
    pub description: Seq<char>,
    pub solidity_code: Seq<char>,
    pub confidence_percent: nat,
    pub category: InvariantCategory,
}

impl View for GeneratedInvariant {
    type V = InvariantText;

    open spec fn view(&self) -> InvariantText {
        InvariantText {
            name: self.name@,
            description: self.description@,
            solidity_code: self.solidity_code@,
            confidence_percent: self.confidence_percent as nat,
            category: self.category,
        }
    }
}

/// The views of a list of generated invariants.
pub open spec fn invariant_texts(v: Seq<GeneratedInvariant>) -> Seq<InvariantText> {
    v.map_values(|g: GeneratedInvariant| g@)
}

/// Generates invariants for one contract source.
pub struct InvariantGenerator {
    source_code: String,
    contract_name: String,
}

/// The pattern of a mapping whose name mentions a balance; group 1 is the name.
pub open spec fn balance_mapping_pattern() -> Seq<char> {
    "mapping\\s*\\([^)]+\\)\\s+(?:public|private|internal)?\\s*(\\w*[Bb]alance\\w*)"@
}

/// The texts of the present groups among `spans` of the bytes `b`.
pub open spec fn captured_texts(b: Seq<u8>, spans: Seq<Option<(nat, nat)>>) -> Seq<Seq<char>>
    decreases spans.len(),
{
    if spans.len() == 0 {
        Seq::empty()
    } else {
        captured_texts(b, spans.drop_last()) + match spans.last() {
            Some(s) => seq![vstd::utf8::decode_utf8(b.subrange(s.0 as int, s.1 as int))],
            None => Seq::empty(),
        }
    }
}

/// The names of the balance mappings of a source.
pub open spec fn balance_names(src: Seq<char>) -> Seq<Seq<char>> {
    if regex_valid(balance_mapping_pattern()) {
        captured_texts(vstd::utf8::encode_utf8(src), regex_group_spans(balance_mapping_pattern(), src, 1))
    } else {
        Seq::empty()
    }
}

/// The conservation invariant of a balance mapping `v`.
pub open spec fn balance_invariant(v: Seq<char>) -> InvariantText {
    InvariantText {
        name: "sum_"@ + v + "_conservation"@,
        description: "Sum of all "@ + v + " should remain constant or match total"@,
        solidity_code: "function invariant_"@ + v
            + "Conservation() public view returns (bool) {\n    // Sum of individual balances should equal total supply\n    return true; // Implement balance tracking\n}"@,
        confidence_percent: 70,
        category: InvariantCategory::BalanceConservation,
    }
}

/// The supply invariants, present when the source names `totalSupply` and `balanceOf`.
pub open spec fn supply_invariants(src: Seq<char>) -> Seq<InvariantText> {
    if str_has(src, "totalSupply"@) && str_has(src, "balanceOf"@) {
        seq![
            InvariantText {
                name: "total_supply_non_negative"@,
                description: "Total supply must never be negative"@,
                solidity_code: "function invariant_totalSupplyNonNegative() public view returns (bool) {\n    return totalSupply() >= 0;\n}"@,
                confidence_percent: 95,
                category: InvariantCategory::SupplyConservation,
            },
            InvariantText {
                name: "balance_lte_supply"@,
                description: "Individual balance cannot exceed total supply"@,
                solidity_code: "function invariant_balanceLteSupply(address user) public view returns (bool) {\n    return balanceOf(user) <= totalSupply();\n}"@,
                confidence_percent: 90,
                category: InvariantCategory::BoundedValue,
            },
        ]
    } else {
        Seq::empty()
    }
}

/// The names of counters that should only grow.
pub open spec fn monotonic_names() -> Seq<Seq<char>> {
    seq!["nonce"@, "epoch"@, "totalStaked"@, "totalDeposits"@]
}

/// The never-decreasing invariant of a counter `p`.
pub open spec fn monotonic_invariant(p: Seq<char>) -> InvariantText {
    InvariantText {
        name: p + "_monotonic_increase"@,
        description: p + " should never decrease"@,
        solidity_code: "uint256 private last_"@ + p + ";\nfunction invariant_"@ + p
            + "Monotonic() public returns (bool) {\n    bool result = "@ + p + " >= last_"@ + p + ";\n    last_"@
            + p + " = "@ + p + ";\n    return result;\n}"@,
        confidence_percent: 80,
        category: InvariantCategory::MonotonicIncrease,
    }
}

/// The monotonic invariants of the counters among `names` that the source mentions.
pub open spec fn monotonic_invariants(src: Seq<char>, names: Seq<Seq<char>>) -> Seq<InvariantText>
    decreases names.len(),
{
    if names.len() == 0 {
        Seq::empty()
    } else {
        monotonic_invariants(src, names.drop_last()) + if str_has(src, names.last()) {
            seq![monotonic_invariant(names.last())]
        } else {
            Seq::empty()
        }
    }
}

proof fn lemma_monotonic_contains(src: Seq<char>, names: Seq<Seq<char>>, j: int)
    requires
        0 <= j < names.len(),
        str_has(src, names[j]),
    ensures
        monotonic_invariants(src, names).contains(monotonic_invariant(names[j])),
    decreases names.len(),
{
    let prev = monotonic_invariants(src, names.drop_last());
    if j == names.len() - 1 {
        assert(monotonic_invariants(src, names)[prev.len() as int] == monotonic_invariant(names[j]));
    } else {
        lemma_monotonic_contains(src, names.drop_last(), j);
        let k = choose|k: int| 0 <= k < prev.len() && prev[k] == monotonic_invariant(names[j]);
        assert(monotonic_invariants(src, names)[k] == prev[k]);
    }
}

/// A generated invariant that a counter `p` never decreases, as the
/// generator words it.
pub open spec fn is_monotonic_of(g: InvariantText, p: Seq<char>) -> bool {
    &&& g.name == p + "_monotonic_increase"@
    &&& g.description == p + " should never decrease"@
    &&& g.confidence_percent == 80
    &&& g.category == InvariantCategory::MonotonicIncrease
}

/// Each of the counters `nonce`, `epoch`, `totalStaked` and `totalDeposits`
/// that the source mentions gets an invariant that it never decreases,
/// named `<counter>_monotonic_increase`, with confidence 80%.
pub proof fn law_counters_get_monotonic_invariants(src: Seq<char>)
    ensures
        str_has(src, "nonce"@) ==> exists|i: int|
            0 <= i < generated_invariants(src).len() && is_monotonic_of(#[trigger] generated_invariants(src)[i], "nonce"@),
        str_has(src, "epoch"@) ==> exists|i: int|
            0 <= i < generated_invariants(src).len() && is_monotonic_of(#[trigger] generated_invariants(src)[i], "epoch"@),
        str_has(src, "totalStaked"@) ==> exists|i: int|
            0 <= i < generated_invariants(src).len() && is_monotonic_of(#[trigger] generated_invariants(src)[i], "totalStaked"@),
        str_has(src, "totalDeposits"@) ==> exists|i: int|
            0 <= i < generated_invariants(src).len() && is_monotonic_of(#[trigger] generated_invariants(src)[i], "totalDeposits"@),
{
    let names = monotonic_names();
    let front = balance_names(src).map_values(|v: Seq<char>| balance_invariant(v)) + supply_invariants(src);
    let mono = monotonic_invariants(src, names);
    let all = generated_invariants(src);
    assert(all == front + mono + access_invariants(src, access_names()));
    assert forall|j: int| 0 <= j < 4 && str_has(src, #[trigger] names[j]) implies exists|i: int|
        0 <= i < all.len() && is_monotonic_of(#[trigger] all[i], names[j]) by {
        lemma_monotonic_contains(src, names, j);
        let k = choose|k: int| 0 <= k < mono.len() && mono[k] == monotonic_invariant(names[j]);
        assert(all[front.len() + k] == mono[k]);
        assert(is_monotonic_of(all[front.len() + k], names[j]));
    }
    assert(names[0] == "nonce"@);
    assert(names[1] == "epoch"@);
    assert(names[2] == "totalStaked"@);
    assert(names[3] == "totalDeposits"@);
}

/// A source naming both `totalSupply` and `balanceOf` gets the invariants
/// that the total supply is never negative (95%) and that no balance exceeds
/// it (90%); a role `owner` or `admin` that the source mentions as a word
/// gets an invariant that it is never the zero address (85%).
pub proof fn law_supply_and_role_invariants(src: Seq<char>)
    ensures
        (str_has(src, "totalSupply"@) && str_has(src, "balanceOf"@)) ==> exists|i: int, j: int|
            0 <= i < generated_invariants(src).len() && 0 <= j < generated_invariants(src).len()
                && (#[trigger] generated_invariants(src)[i]).name == "total_supply_non_negative"@
                && generated_invariants(src)[i].confidence_percent == 95
                && generated_invariants(src)[i].category == InvariantCategory::SupplyConservation
                && (#[trigger] generated_invariants(src)[j]).name == "balance_lte_supply"@
                && generated_invariants(src)[j].confidence_percent == 90
                && generated_invariants(src)[j].category == InvariantCategory::BoundedValue,
        mentions_word(src, "owner"@) ==> exists|i: int|
            0 <= i < generated_invariants(src).len() && (#[trigger] generated_invariants(src)[i]).name == "owner"@ + "_not_zero"@
                && generated_invariants(src)[i].description == "owner"@ + " should never be zero address"@
                && generated_invariants(src)[i].confidence_percent == 85
                && generated_invariants(src)[i].category == InvariantCategory::NonZero,
        mentions_word(src, "admin"@) ==> exists|i: int|
            0 <= i < generated_invariants(src).len() && (#[trigger] generated_invariants(src)[i]).name == "admin"@ + "_not_zero"@
                && generated_invariants(src)[i].description == "admin"@ + " should never be zero address"@
                && generated_invariants(src)[i].confidence_percent == 85
                && generated_invariants(src)[i].category == InvariantCategory::NonZero,
{
    let bal = balance_names(src).map_values(|v: Seq<char>| balance_invariant(v));
    let sup = supply_invariants(src);
    let mono = monotonic_invariants(src, monotonic_names());
    let acc = access_invariants(src, access_names());
    let all = generated_invariants(src);
    assert(all == bal + sup + mono + acc);
    if str_has(src, "totalSupply"@) && str_has(src, "balanceOf"@) {
        assert(all[bal.len() as int] == sup[0]);
        assert(all[bal.len() as int + 1] == sup[1]);
    }
    let names = access_names();
    let base: int = (bal.len() + sup.len() + mono.len()) as int;
    if mentions_word(src, "owner"@) {
        assert(names[0] == "owner"@);
        lemma_access_contains(src, names, 0);
        let k = choose|k: int| 0 <= k < acc.len() && acc[k] == access_invariant(names[0]);
        assert(all[base + k] == acc[k]);
    }
    if mentions_word(src, "admin"@) {
        assert(names[1] == "admin"@);
        lemma_access_contains(src, names, 1);
        let k = choose|k: int| 0 <= k < acc.len() && acc[k] == access_invariant(names[1]);
        assert(all[base + k] == acc[k]);
    }
}

/// The names of roles that should never be the zero address.
pub open spec fn access_names() -> Seq<Seq<char>> {
    seq!["owner"@, "admin"@]
}

/// The source mentions the whole word `w` (the pattern `\bw\b` matches).
pub open spec fn mentions_word(src: Seq<char>, w: Seq<char>) -> bool {
    regex_valid("\\b"@ + w + "\\b"@) && regex_group_spans("\\b"@ + w + "\\b"@, src, 0).len() > 0
}

/// The non-zero invariant of a role `p`.
pub open spec fn access_invariant(p: Seq<char>) -> InvariantText {
    InvariantText {
        name: p + "_not_zero"@,
        description: p + " should never be zero address"@,
        solidity_code: "function invariant_"@ + p + "NotZero() public view returns (bool) {\n    return "@ + p
            + " != address(0);\n}"@,
        confidence_percent: 85,
        category: InvariantCategory::NonZero,
    }
}

/// The non-zero invariants of the roles among `names` that the source mentions as words.
pub open spec fn access_invariants(src: Seq<char>, names: Seq<Seq<char>>) -> Seq<InvariantText>
    decreases names.len(),
{
    if names.len() == 0 {
        Seq::empty()
    } else {
        access_invariants(src, names.drop_last()) + if mentions_word(src, names.last()) {
            seq![access_invariant(names.last())]
        } else {
            Seq::empty()
        }
    }
}

proof fn lemma_access_contains(src: Seq<char>, names: Seq<Seq<char>>, j: int)
    requires
        0 <= j < names.len(),
        mentions_word(src, names[j]),
    ensures
        access_invariants(src, names).contains(access_invariant(names[j])),
    decreases names.len(),
{
    let prev = access_invariants(src, names.drop_last());
    if j == names.len() - 1 {
        assert(access_invariants(src, names)[prev.len() as int] == access_invariant(names[j]));
    } else {
        lemma_access_contains(src, names.drop_last(), j);
        let k = choose|k: int| 0 <= k < prev.len() && prev[k] == access_invariant(names[j]);
        assert(access_invariants(src, names)[k] == prev[k]);
    }
}

/// All invariants generated for a source: balances, supply, counters, roles.
pub open spec fn generated_invariants(src: Seq<char>) -> Seq<InvariantText> {
    balance_names(src).map_values(|v: Seq<char>| balance_invariant(v)) + supply_invariants(src)
        + monotonic_invariants(src, monotonic_names()) + access_invariants(src, access_names())
}

/// The name of a category as `Debug` prints it.
pub open spec fn category_name(c: InvariantCategory) -> Seq<char> {
    match c {
        InvariantCategory::BalanceConservation => "BalanceConservation"@,
        InvariantCategory::SupplyConservation => "SupplyConservation"@,
        InvariantCategory::MonotonicIncrease => "MonotonicIncrease"@,
        InvariantCategory::NonZero => "NonZero"@,
        InvariantCategory::BoundedValue => "BoundedValue"@,
        InvariantCategory::AccessControl => "AccessControl"@,
    }
}

/// The head of the Foundry test of contract `n`.
pub open spec fn foundry_header(n: Seq<char>) -> Seq<char> {
    "// SPDX-License-Identifier: MIT\npragma solidity ^0.8.0;\n\nimport \"forge-std/Test.sol\";\nimport \"../src/"@
        + n + ".sol\";\n\ncontract "@ + n + "InvariantTest is Test {\n    "@ + n
        + " public target;\n    \n    function setUp() public {\n        target = new "@ + n + "();\n    }\n"@
}

/// The block of the Foundry test that states one invariant.
pub open spec fn foundry_block(g: InvariantText) -> Seq<char> {
    "\n    // "@ + g.description + "\n    // Confidence: "@ + decimal(g.confidence_percent) + "%\n    // Category: "@
        + category_name(g.category) + "\n    "@ + g.solidity_code + "\n"@
}

/// The blocks of a list of invariants, one after the other.
pub open spec fn foundry_blocks(gs: Seq<InvariantText>) -> Seq<char>
    decreases gs.len(),
{
    if gs.len() == 0 {
        Seq::empty()
    } else {
        foundry_blocks(gs.drop_last()) + foundry_block(gs.last())
    }
}

/// The Foundry invariant test of contract `n` stating the invariants `gs`.
pub open spec fn foundry_test(n: Seq<char>, gs: Seq<InvariantText>) -> Seq<char> {
    foundry_header(n) + foundry_blocks(gs) + "}\n"@
}

/// `Debug` of a category.
pub fn category_str(c: InvariantCategory) -> (r: &'static str)
    ensures
        r@ == category_name(c),
{
    match c {
        InvariantCategory::BalanceConservation => "BalanceConservation",
        InvariantCategory::SupplyConservation => "SupplyConservation",
        InvariantCategory::MonotonicIncrease => "MonotonicIncrease",
        InvariantCategory::NonZero => "NonZero",
        InvariantCategory::BoundedValue => "BoundedValue",
        InvariantCategory::AccessControl => "AccessControl",
    }
}

proof fn lemma_map_values_push(s: Seq<Seq<char>>, x: Seq<char>)
    ensures
        s.push(x).map_values(|v: Seq<char>| balance_invariant(v)) == s.map_values(|v: Seq<char>| balance_invariant(v)).push(balance_invariant(x)),
{
    assert(s.push(x).map_values(|v: Seq<char>| balance_invariant(v)) =~= s.map_values(|v: Seq<char>| balance_invariant(v)).push(balance_invariant(x)));
}

impl InvariantGenerator {
    /// A generator for the source of contract `contract_name`.
    pub fn new(source_code: String, contract_name: String) -> (r: Self)
        ensures
            r.source() == source_code@,
            r.contract_name()@ == contract_name@,
    {
        InvariantGenerator { source_code, contract_name }
    }

    /// The source the invariants are generated from.
    pub closed spec fn source(&self) -> Seq<char> {
        self.source_code@
    }

    /// The name of the contract under test.
    pub closed spec fn contract_name(&self) -> String {
        self.contract_name
    }

    /// All candidate invariants of the source, in the order balances, supply,
    /// counters, roles.
    pub fn generate(&self) -> (r: Vec<GeneratedInvariant>)
        ensures
            invariant_texts(r@) == generated_invariants(self.source()),
    {
        let mut out = self.generate_balance_invariants();
        let mut s = self.generate_supply_invariants();
        out.append(&mut s);
        let mut m = self.generate_monotonic_invariants();
        out.append(&mut m);
        let mut a = self.generate_access_invariants();
        out.append(&mut a);
        proof {
            assert(invariant_texts(out@) =~= generated_invariants(self.source()));
        }
        out
    }

    fn generate_balance_invariants(&self) -> (r: Vec<GeneratedInvariant>)
        ensures
            invariant_texts(r@) == balance_names(self.source()).map_values(|v: Seq<char>| balance_invariant(v)),
    {
        let src = self.source_code.as_str();
        let mut out: Vec<GeneratedInvariant> = Vec::new();
        let spans = match regex_capture_spans(
            "mapping\\s*\\([^)]+\\)\\s+(?:public|private|internal)?\\s*(\\w*[Bb]alance\\w*)",
            src,
            1,
        ) {
            Some(v) => v,
            None => {
                assert(out@.map_values(|g: GeneratedInvariant| g@) =~= Seq::<InvariantText>::empty());
                return out;
            },
        };
        let ghost b = sbytes(src);
        let ghost names: Seq<Seq<char>> = Seq::empty();
        let mut i: usize = 0;
        while i < spans.len()
            invariant
                src@ == self.source(),
                b == sbytes(src),
                b == vstd::utf8::encode_utf8(src@),
                i <= spans.len(),
                names == captured_texts(b, opt_prefix(spans@, i as int)),
                invariant_texts(out@) == names.map_values(|v: Seq<char>| balance_invariant(v)),
                forall|k: int| 0 <= k < spans.len() ==> (#[trigger] spans@[k] matches Some(s)
                    ==> crate::pattern_match::text_span(src, s)),
            decreases spans.len() - i,
        {
            let ghost prev = names;
            assert(opt_prefix(spans@, i + 1).drop_last() =~= opt_prefix(spans@, i as int));
            match spans[i] {
                Some((s, e)) => {
                    let v = str_slice(src, s, e);
                    proof {
                        vstd::utf8::encode_utf8_decode_utf8(v@);
                        names = names.push(v@);
                        lemma_map_values_push(prev, v@);
                    }
                    out.push(Self::balance_invariant_of(v));
                    proof {
                        assert(invariant_texts(out@) =~= invariant_texts(out@.drop_last()).push(out@.last()@));
                    }
                },
                None => {},
            }
            i = i + 1;
        }
        proof {
            assert(opt_prefix(spans@, spans.len() as int) =~= crate::pattern_match::opt_spans_view(spans@));
        }
        out
    }

    fn balance_invariant_of(v: &str) -> (r: GeneratedInvariant)
        ensures
            r@ == balance_invariant(v@),
    {
        let mut name = owned("sum_");
        push_str(&mut name, v);
        push_str(&mut name, "_conservation");
        let mut description = owned("Sum of all ");
        push_str(&mut description, v);
        push_str(&mut description, " should remain constant or match total");
        let mut code = owned("function invariant_");
        push_str(&mut code, v);
        push_str(
            &mut code,
            "Conservation() public view returns (bool) {\n    // Sum of individual balances should equal total supply\n    return true; // Implement balance tracking\n}",
        );
        GeneratedInvariant {
            name,
            description,
            solidity_code: code,
            confidence_percent: 70,
            category: InvariantCategory::BalanceConservation,
        }
    }

    fn generate_supply_invariants(&self) -> (r: Vec<GeneratedInvariant>)
        ensures
            invariant_texts(r@) == supply_invariants(self.source()),
    {
        let src = self.source_code.as_str();
        let mut out: Vec<GeneratedInvariant> = Vec::new();
        if contains(src, "totalSupply") && contains(src, "balanceOf") {
            out.push(GeneratedInvariant {
                name: owned("total_supply_non_negative"),
                description: owned("Total supply must never be negative"),
                solidity_code: owned(
                    "function invariant_totalSupplyNonNegative() public view returns (bool) {\n    return totalSupply() >= 0;\n}",
                ),
                confidence_percent: 95,
                category: InvariantCategory::SupplyConservation,
            });
            out.push(GeneratedInvariant {
                name: owned("balance_lte_supply"),
                description: owned("Individual balance cannot exceed total supply"),
                solidity_code: owned(
                    "function invariant_balanceLteSupply(address user) public view returns (bool) {\n    return balanceOf(user) <= totalSupply();\n}",
                ),
                confidence_percent: 90,
                category: InvariantCategory::BoundedValue,
            });
        }
        proof {
            assert(invariant_texts(out@) =~= supply_invariants(self.source()));
        }
        out
    }

    fn monotonic_invariant_of(p: &str) -> (r: GeneratedInvariant)
        ensures
            r@ == monotonic_invariant(p@),
    {
        let mut name = owned(p);
        push_str(&mut name, "_monotonic_increase");
        let mut description = owned(p);
        push_str(&mut description, " should never decrease");
        let mut code = owned("uint256 private last_");
        push_str(&mut code, p);
        push_str(&mut code, ";\nfunction invariant_");
        push_str(&mut code, p);
        push_str(&mut code, "Monotonic() public returns (bool) {\n    bool result = ");
        push_str(&mut code, p);
        push_str(&mut code, " >= last_");
        push_str(&mut code, p);
        push_str(&mut code, ";\n    last_");
        push_str(&mut code, p);
        push_str(&mut code, " = ");
        push_str(&mut code, p);
        push_str(&mut code, ";\n    return result;\n}");
        GeneratedInvariant {
            name,
            description,
            solidity_code: code,
            confidence_percent: 80,
            category: InvariantCategory::MonotonicIncrease,
        }
    }

    fn generate_monotonic_invariants(&self) -> (r: Vec<GeneratedInvariant>)
        ensures
            invariant_texts(r@) == monotonic_invariants(self.source(), monotonic_names()),
    {
        let src = self.source_code.as_str();
        let names: [&str; 4] = ["nonce", "epoch", "totalStaked", "totalDeposits"];
        let ghost want = monotonic_names();
        assert(names@.map_values(|s: &str| s@) =~= want);
        let mut out: Vec<GeneratedInvariant> = Vec::new();
        let mut i: usize = 0;
        while i < 4
            invariant
                src@ == self.source(),
                i <= 4,
                want == monotonic_names(),
                names@.map_values(|s: &str| s@) == want,
                invariant_texts(out@) == monotonic_invariants(src@, want.subrange(0, i as int)),
            decreases 4 - i,
        {
            let p = names[i];
            assert(want.subrange(0, i + 1).drop_last() =~= want.subrange(0, i as int));
            assert(names@.map_values(|s: &str| s@)[i as int] == p@);
            if contains(src, p) {
                out.push(Self::monotonic_invariant_of(p));
                proof {
                    assert(invariant_texts(out@) =~= invariant_texts(out@.drop_last()).push(out@.last()@));
                }
            } else {
                assert(monotonic_invariants(src@, want.subrange(0, i + 1)) =~= monotonic_invariants(src@, want.subrange(0, i as int)));
            }
            i = i + 1;
        }
        assert(want.subrange(0, 4) =~= want);
        out
    }

    fn access_invariant_of(p: &str) -> (r: GeneratedInvariant)
        ensures
            r@ == access_invariant(p@),
    {
        let mut name = owned(p);
        push_str(&mut name, "_not_zero");
        let mut description = owned(p);
        push_str(&mut description, " should never be zero address");
        let mut code = owned("function invariant_");
        push_str(&mut code, p);
        push_str(&mut code, "NotZero() public view returns (bool) {\n    return ");
        push_str(&mut code, p);
        push_str(&mut code, " != address(0);\n}");
        GeneratedInvariant {
            name,
            description,
            solidity_code: code,
            confidence_percent: 85,
            category: InvariantCategory::NonZero,
        }
    }

    fn generate_access_invariants(&self) -> (r: Vec<GeneratedInvariant>)
        ensures
            invariant_texts(r@) == access_invariants(self.source(), access_names()),
    {
        let src = self.source_code.as_str();
        let names: [&str; 2] = ["owner", "admin"];
        let ghost want = access_names();
        assert(names@.map_values(|s: &str| s@) =~= want);
        let mut out: Vec<GeneratedInvariant> = Vec::new();
        let mut i: usize = 0;
        while i < 2
            invariant
                src@ == self.source(),
                i <= 2,
                want == access_names(),
                names@.map_values(|s: &str| s@) == want,
                invariant_texts(out@) == access_invariants(src@, want.subrange(0, i as int)),
            decreases 2 - i,
        {
            let p = names[i];
            assert(want.subrange(0, i + 1).drop_last() =~= want.subrange(0, i as int));
            assert(names@.map_values(|s: &str| s@)[i as int] == p@);
            let mut pattern = owned("\\b");
            push_str(&mut pattern, p);
            push_str(&mut pattern, "\\b");
            let found = match regex_capture_spans(pattern.as_str(), src, 0) {
                Some(v) => v.len() > 0,
                None => false,
            };
            if found {
                out.push(Self::access_invariant_of(p));
                proof {
                    assert(invariant_texts(out@) =~= invariant_texts(out@.drop_last()).push(out@.last()@));
                }
            } else {
                assert(access_invariants(src@, want.subrange(0, i + 1)) =~= access_invariants(src@, want.subrange(0, i as int)));
            }
            i = i + 1;
        }
        assert(want.subrange(0, 2) =~= want);
        out
    }

    /// A Foundry test contract for the contract that states every generated
    /// invariant with its description, confidence and category.
    pub fn export_foundry_test(&self) -> (r: String)
        ensures
            r@ == foundry_test(self.contract_name()@, generated_invariants(self.source())),
    {
        let invariants = self.generate();
        let n = self.contract_name.as_str();
        let mut code = owned("// SPDX-License-Identifier: MIT\npragma solidity ^0.8.0;\n\nimport \"forge-std/Test.sol\";\nimport \"../src/");
        push_str(&mut code, n);
        push_str(&mut code, ".sol\";\n\ncontract ");
        push_str(&mut code, n);
        push_str(&mut code, "InvariantTest is Test {\n    ");
        push_str(&mut code, n);
        push_str(&mut code, " public target;\n    \n    function setUp() public {\n        target = new ");
        push_str(&mut code, n);
        push_str(&mut code, "();\n    }\n");
        let ghost head = code@;
        assert(head == foundry_header(n@));
        let ghost gs = invariant_texts(invariants@);
        let mut i: usize = 0;
        while i < invariants.len()
            invariant
                i <= invariants.len(),
                gs == invariant_texts(invariants@),
                code@ == head + foundry_blocks(gs.subrange(0, i as int)),
            decreases invariants.len() - i,
        {
            let g = &invariants[i];
            assert(gs.subrange(0, i + 1).drop_last() =~= gs.subrange(0, i as int));
            assert(gs[i as int] == g@);
            push_str(&mut code, "\n    // ");
            push_str(&mut code, g.description.as_str());
            push_str(&mut code, "\n    // Confidence: ");
            push_decimal(&mut code, g.confidence_percent as usize);
            push_str(&mut code, "%\n    // Category: ");
            push_str(&mut code, category_str(g.category));
            push_str(&mut code, "\n    ");
            push_str(&mut code, g.solidity_code.as_str());
            push_str(&mut code, "\n");
            assert(code@ =~= head + foundry_blocks(gs.subrange(0, i + 1)));
            i = i + 1;
        }
        push_str(&mut code, "}\n");
        assert(gs.subrange(0, invariants.len() as int) =~= gs);
        code
    }
}

/// The first `n` optional spans, as plain numbers.
pub open spec fn opt_prefix(v: Seq<Option<(usize, usize)>>, n: int) -> Seq<Option<(nat, nat)>> {
    crate::pattern_match::opt_spans_view(v.subrange(0, n))
}

} // verus!
