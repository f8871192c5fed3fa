//! Invariant inference over a contract's storage layout and the attack
//! sequences that would violate each inv.
use vstd::prelude::*;
use crate::text::{lemma_map_push, contains, str_has, owned, push_str, push_decimal, decimal, joined, push_joined, strs, copy_strings};

verus! {

/// The contract state under analysis: storage slots and balances, by name.
#[derive(Debug, Clone)]
pub struct ContractState {
    pub storage: Vec<(String, StorageSlot)>,
    pub balances: Vec<(String, String)>,
}

/// One storage slot and the functions that read or write it.
#[derive(Debug, Clone)]
pub struct StorageSlot {
    pub name: String,
    pub slot_type: SlotType,
    pub read_by: Vec<String>,
    pub written_by: Vec<String>,
}

/// The Solidity type of a slot.
#[derive(Debug, Clone)]
pub enum SlotType {
    Scalar { scalar_type: String },
    Mapping { key_type: String, value_type: String },
    Array { element_type: String },
}

/// A property the contract should keep.
#[derive(Debug, Clone)]
pub struct Invariant {
    pub description: String,
    pub expression: String,
    pub severity: InvariantSeverity,
}

/// How bad breaking an invariant is.
#[derive(Debug, Clone, Copy, PartialEq, Eq, Structural)]
pub enum InvariantSeverity {
    Critical,
    High,
    Medium,
}

/// An invariant with a call sequence that would break it.
#[derive(Debug, Clone)]
pub struct StateViolation {
    pub broken_invariant: Invariant,
    pub attack_sequence: Vec<FunctionCall>,
    pub exploit_description: String,
}

/// One call of an attack sequence.
#[derive(Debug, Clone)]
pub struct FunctionCall {
    pub function: String,
    pub caller: String,
    pub arguments: Vec<String>,
}

/// Accumulates invariants and the violations found for them.
pub struct StateAnalyzer {
    invariants: Vec<Invariant>,
    violations: Vec<StateViolation>,
}

/// An invariant as plain values: description, expression, severity.
pub type InvariantV = (Seq<char>, Seq<char>, InvariantSeverity);

/// A call as plain values: function, caller, arguments.
pub type CallV = (Seq<char>, Seq<char>, Seq<Seq<char>>);

pub open spec fn inv_view(i: Invariant) -> InvariantV {
    (i.description@, i.expression@, i.severity)
}

pub open spec fn call_view(c: FunctionCall) -> CallV {
    (c.function@, c.caller@, strs(c.arguments@))
}

pub open spec fn is_mapping(t: SlotType) -> bool {
    match t {
        SlotType::Mapping { .. } => true,
        _ => false,
    }
}

/// The invariants inferred for one slot, in order: non-zero owner/admin,
/// bounded balance, increasing nonce/counter, and a warning for mappings with
/// several writers.
pub open spec fn inferred_for(name: Seq<char>, slot: StorageSlot) -> Seq<InvariantV> {
    (if str_has(name, "owner"@) || str_has(name, "admin"@) {
        seq![(name + " should never be zero address"@, name + " != address(0)"@, InvariantSeverity::Critical)]
    } else {
        Seq::empty()
    }) + (if str_has(name, "balance"@) {
        seq![(name + " should never exceed total supply"@, name + "[user] <= totalSupply"@, InvariantSeverity::High)]
    } else {
        Seq::empty()
    }) + (if str_has(name, "nonce"@) || str_has(name, "counter"@) {
        seq![(name + " should only increase"@, name + "_new >= "@ + name + "_old"@, InvariantSeverity::Medium)]
    } else {
        Seq::empty()
    }) + (if is_mapping(slot.slot_type) && slot.written_by@.len() > 1 {
        seq![(name + " has multiple writers - check for race conditions"@, "Concurrent writes to "@ + name, InvariantSeverity::High)]
    } else {
        Seq::empty()
    })
}

/// The invariants inferred for all slots, slot by slot.
pub open spec fn inferred(storage: Seq<(String, StorageSlot)>) -> Seq<InvariantV>
    decreases storage.len(),
{
    if storage.len() == 0 {
        Seq::empty()
    } else {
        inferred(storage.drop_last()) + inferred_for(storage.last().0@, storage.last().1)
    }
}

pub open spec fn withdraw_call() -> CallV {
    ("withdraw"@, "attacker"@, seq!["amount"@])
}

/// The attack sequences for an invariant, in order: a double withdraw when its
/// description mentions reentrancy, an ownership transfer to the zero address
/// when it mentions owner or admin, an unbounded mint when it mentions balance.
pub open spec fn attack_sequences(description: Seq<char>) -> Seq<Seq<CallV>> {
    (if str_has(description, "reentrancy"@) {
        seq![seq![withdraw_call(), withdraw_call()]]
    } else {
        Seq::empty()
    }) + (if str_has(description, "owner"@) || str_has(description, "admin"@) {
        seq![seq![("transferOwnership"@, "attacker"@, seq!["address(0)"@])]]
    } else {
        Seq::empty()
    }) + (if str_has(description, "balance"@) {
        seq![seq![("mint"@, "attacker"@, seq!["MAX_UINT256"@])]]
    } else {
        Seq::empty()
    })
}

pub open spec fn severity_name(s: InvariantSeverity) -> Seq<char> {
    match s {
        InvariantSeverity::Critical => "Critical"@,
        InvariantSeverity::High => "High"@,
        InvariantSeverity::Medium => "Medium"@,
    }
}

/// The numbered lines of an attack sequence, starting at `first`.
pub open spec fn call_lines(calls: Seq<CallV>, first: nat) -> Seq<char>
    decreases calls.len(),
{
    if calls.len() == 0 {
        Seq::empty()
    } else {
        call_lines(calls.drop_last(), first) + decimal((first + calls.len() - 1) as nat) + ". `"@
            + calls.last().0 + "("@ + joined(calls.last().2, ", "@) + ")` called by "@
            + calls.last().1 + "\n"@
    }
}

/// The Markdown description of how `calls` break `inv`.
pub open spec fn exploit_text(calls: Seq<CallV>, inv: InvariantV) -> Seq<char> {
    "## Invariant Violation: "@ + inv.0 + "\n\n"@ + "**Severity**: "@ + severity_name(inv.2)
        + "\n\n"@ + "### Attack Sequence:\n\n"@ + call_lines(calls, 1) + "\n### Impact:\nViolates: `"@
        + inv.1 + "`\n"@
}

/// The violation reported for an invariant, if it has an attack sequence: the
/// first sequence and its description.
pub open spec fn violation_for(inv: InvariantV) -> Option<(InvariantV, Seq<CallV>, Seq<char>)> {
    let seqs = attack_sequences(inv.0);
    if seqs.len() > 0 {
        Some((inv, seqs[0], exploit_text(seqs[0], inv)))
    } else {
        None
    }
}

pub open spec fn violation_view(v: StateViolation) -> (InvariantV, Seq<CallV>, Seq<char>) {
    (inv_view(v.broken_invariant), v.attack_sequence@.map_values(|c: FunctionCall| call_view(c)), v.exploit_description@)
}

/// The violations of a list of invariants, in order.
pub open spec fn violations_of(invs: Seq<InvariantV>) -> Seq<(InvariantV, Seq<CallV>, Seq<char>)>
    decreases invs.len(),
{
    if invs.len() == 0 {
        Seq::empty()
    } else {
        match violation_for(invs.last()) {
            Some(v) => violations_of(invs.drop_last()).push(v),
            None => violations_of(invs.drop_last()),
        }
    }
}

/// The violations whose invariant has severity `s`, in order.
pub open spec fn with_severity(vs: Seq<StateViolation>, s: InvariantSeverity) -> Seq<StateViolation>
    decreases vs.len(),
{
    if vs.len() == 0 {
        Seq::empty()
    } else if vs.last().broken_invariant.severity == s {
        with_severity(vs.drop_last(), s).push(vs.last())
    } else {
        with_severity(vs.drop_last(), s)
    }
}

/// The exploit descriptions of the violations, each followed by a separator.
pub open spec fn descriptions(vs: Seq<StateViolation>) -> Seq<char>
    decreases vs.len(),
{
    if vs.len() == 0 {
        Seq::empty()
    } else {
        descriptions(vs.drop_last()) + vs.last().exploit_description@ + "\n---\n\n"@
    }
}

/// The report section for violations of one severity (empty when there are none).
pub open spec fn report_section(title: Seq<char>, vs: Seq<StateViolation>) -> Seq<char> {
    if vs.len() == 0 {
        Seq::empty()
    } else {
        title + " ("@ + decimal(vs.len()) + ")\n\n"@ + descriptions(vs)
    }
}

/// The Markdown report.
pub open spec fn report_text(n_invariants: nat, vs: Seq<StateViolation>) -> Seq<char> {
    "# State Analysis Report\n\n"@ + "Total invariants checked: "@ + decimal(n_invariants) + "\n"@
        + "Violations found: "@ + decimal(vs.len()) + "\n\n"@ + report_section(
        "## Critical Violations"@,
        with_severity(vs, InvariantSeverity::Critical),
    ) + report_section("## High Severity Violations"@, with_severity(vs, InvariantSeverity::High))
}

/// The violations of two lists of invariants checked one after the other are
/// those of the first list followed by those of the second.
pub proof fn lemma_violations_concat(a: Seq<InvariantV>, b: Seq<InvariantV>)
    ensures
        violations_of(a + b) == violations_of(a) + violations_of(b),
    decreases b.len(),
{
    if b.len() == 0 {
        assert(a + b =~= a);
        assert(violations_of(a) + violations_of(b) =~= violations_of(a));
    } else {
        lemma_violations_concat(a, b.drop_last());
        assert((a + b).drop_last() =~= a + b.drop_last());
        assert((a + b).last() == b.last());
        match violation_for(b.last()) {
            Some(v) => {
                assert(violations_of(a) + violations_of(b.drop_last()).push(v)
                    =~= (violations_of(a) + violations_of(b.drop_last())).push(v));
            },
            None => {},
        }
    }
}

/// Analyzing the same state twice records its inferred invariants twice: the
/// second analysis reports the violations of the first one followed by those
/// of the inferred invariants once more.
pub proof fn law_analyze_twice(
    before: StateAnalyzer,
    first: StateAnalyzer,
    second: StateAnalyzer,
    state: ContractState,
)
    requires
        first.invariants_view() == before.invariants_view() + inferred(state.storage@),
        second.invariants_view() == first.invariants_view() + inferred(state.storage@),
    ensures
        violations_of(second.invariants_view()) == violations_of(first.invariants_view()) + violations_of(
            inferred(state.storage@),
        ),
        second.invariants_view().len() == before.invariants_view().len() + 2 * inferred(state.storage@).len(),
{
    lemma_violations_concat(first.invariants_view(), inferred(state.storage@));
}

/// An invariant added before an analysis is checked by it: the violations
/// are those of the invariants recorded before it, then the one of the added
/// invariant (when it has an attack sequence), then those of the invariants
/// inferred from the state; and the report counts the added invariant.
pub proof fn law_added_invariant_checked(
    before: StateAnalyzer,
    added: StateAnalyzer,
    analyzed: StateAnalyzer,
    inv: Invariant,
    state: ContractState,
)
    requires
        added.invariants_view() == before.invariants_view().push(inv_view(inv)),
        analyzed.invariants_view() == added.invariants_view() + inferred(state.storage@),
    ensures
        violations_of(analyzed.invariants_view()) == violations_of(before.invariants_view()) + (match violation_for(
            inv_view(inv),
        ) {
            Some(v) => seq![v],
            None => Seq::empty(),
        }) + violations_of(inferred(state.storage@)),
        analyzed.invariants_view().len() == before.invariants_view().len() + 1 + inferred(state.storage@).len(),
{
    lemma_violations_concat(added.invariants_view(), inferred(state.storage@));
    lemma_violations_concat(before.invariants_view(), seq![inv_view(inv)]);
    assert(before.invariants_view() + seq![inv_view(inv)] =~= before.invariants_view().push(inv_view(inv)));
    let one = seq![inv_view(inv)];
    assert(one.drop_last() =~= Seq::<InvariantV>::empty());
    assert(one.last() == inv_view(inv));
    assert(violations_of(one.drop_last()) =~= Seq::empty());
    assert(violations_of(one) =~= (match violation_for(inv_view(inv)) {
        Some(v) => seq![v],
        None => Seq::empty(),
    }));
}

proof fn lemma_inferred_prefix(storage: Seq<(String, StorageSlot)>, i: int)
    requires
        0 <= i < storage.len(),
    ensures
        exists|pre: Seq<InvariantV>, post: Seq<InvariantV>|
            inferred(storage) == pre + inferred_for(storage[i].0@, storage[i].1) + post,
    decreases storage.len(),
{
    let last = storage.len() - 1;
    if i == last {
        let pre = inferred(storage.drop_last());
        assert(inferred(storage) == pre + inferred_for(storage[i].0@, storage[i].1) + Seq::<InvariantV>::empty());
    } else {
        lemma_inferred_prefix(storage.drop_last(), i);
        let (pre, post) = choose|pre: Seq<InvariantV>, post: Seq<InvariantV>|
            inferred(storage.drop_last()) == pre + inferred_for(storage.drop_last()[i].0@, storage.drop_last()[i].1) + post;
        let tail = inferred_for(storage.last().0@, storage.last().1);
        assert(inferred(storage) =~= pre + inferred_for(storage[i].0@, storage[i].1) + (post + tail));
    }
}

/// Every invariant the rules give for a slot is among those inferred for the
/// state: a slot named with `owner` or `admin` must never be the zero
/// address, one named with `balance` must not exceed the total supply, one
/// named with `nonce` or `counter` must only increase, and a mapping with
/// more than one writer is warned about.
pub proof fn law_inferred_per_slot(storage: Seq<(String, StorageSlot)>, i: int)
    requires
        0 <= i < storage.len(),
    ensures
        ({
            let name = storage[i].0@;
            let slot = storage[i].1;
            &&& (str_has(name, "owner"@) || str_has(name, "admin"@)) ==> inferred(storage).contains(
                (name + " should never be zero address"@, name + " != address(0)"@, InvariantSeverity::Critical),
            )
            &&& str_has(name, "balance"@) ==> inferred(storage).contains(
                (name + " should never exceed total supply"@, name + "[user] <= totalSupply"@, InvariantSeverity::High),
            )
            &&& (str_has(name, "nonce"@) || str_has(name, "counter"@)) ==> inferred(storage).contains(
                (name + " should only increase"@, name + "_new >= "@ + name + "_old"@, InvariantSeverity::Medium),
            )
            &&& (slot.slot_type is Mapping && slot.written_by@.len() > 1) ==> inferred(storage).contains(
                (name + " has multiple writers - check for race conditions"@, "Concurrent writes to "@ + name, InvariantSeverity::High),
            )
        }),
{
    lemma_inferred_prefix(storage, i);
    let name = storage[i].0@;
    let slot = storage[i].1;
    let (pre, post) = choose|pre: Seq<InvariantV>, post: Seq<InvariantV>|
        inferred(storage) == pre + inferred_for(name, slot) + post;
    let f = inferred_for(name, slot);
    let a = if str_has(name, "owner"@) || str_has(name, "admin"@) {
        seq![(name + " should never be zero address"@, name + " != address(0)"@, InvariantSeverity::Critical)]
    } else {
        Seq::empty()
    };
    let b = if str_has(name, "balance"@) {
        seq![(name + " should never exceed total supply"@, name + "[user] <= totalSupply"@, InvariantSeverity::High)]
    } else {
        Seq::empty()
    };
    let c = if str_has(name, "nonce"@) || str_has(name, "counter"@) {
        seq![(name + " should only increase"@, name + "_new >= "@ + name + "_old"@, InvariantSeverity::Medium)]
    } else {
        Seq::empty()
    };
    let d = if is_mapping(slot.slot_type) && slot.written_by@.len() > 1 {
        seq![(name + " has multiple writers - check for race conditions"@, "Concurrent writes to "@ + name, InvariantSeverity::High)]
    } else {
        Seq::empty()
    };
    assert(f == a + b + c + d);
    let all = inferred(storage);
    if a.len() > 0 {
        assert(all[pre.len() as int] == a[0]);
    }
    if b.len() > 0 {
        assert(all[(pre.len() + a.len()) as int] == b[0]);
    }
    if c.len() > 0 {
        assert(all[(pre.len() + a.len() + b.len()) as int] == c[0]);
    }
    if slot.slot_type is Mapping && slot.written_by@.len() > 1 {
        assert(is_mapping(slot.slot_type));
        assert(all[(pre.len() + a.len() + b.len() + c.len()) as int] == d[0]);
    }
}

/// The description names an attack the analyzer knows: reentrancy, owner,
/// admin or balance.
pub open spec fn names_attack(description: Seq<char>) -> bool {
    ||| str_has(description, "reentrancy"@)
    ||| str_has(description, "owner"@)
    ||| str_has(description, "admin"@)
    ||| str_has(description, "balance"@)
}

/// Every violation reported is for an invariant that has an attack sequence.
proof fn lemma_violations_have_attacks(s: Seq<InvariantV>)
    ensures
        forall|i: int| 0 <= i < violations_of(s).len() ==> attack_sequences(#[trigger] violations_of(s)[i].0.0).len() > 0,
    decreases s.len(),
{
    if s.len() > 0 {
        lemma_violations_have_attacks(s.drop_last());
        let prev = violations_of(s.drop_last());
        match violation_for(s.last()) {
            Some(v) => {
                assert forall|i: int| 0 <= i < violations_of(s).len() implies attack_sequences(
                    #[trigger] violations_of(s)[i].0.0,
                ).len() > 0 by {
                    if i < prev.len() {
                        assert(violations_of(s)[i] == prev[i]);
                    } else {
                        assert(violations_of(s)[i] == v);
                    }
                }
            },
            None => {},
        }
    }
}

/// An invariant added to an analyzer leaves its violations as they were and
/// raises the count of invariants in its report by one; the next analysis
/// reports a violation of that invariant exactly when its description names
/// reentrancy, owner, admin or balance.
pub proof fn law_added_invariant_reported(
    before: StateAnalyzer,
    added: StateAnalyzer,
    analyzed: StateAnalyzer,
    inv: Invariant,
    state: ContractState,
)
    requires
        added.invariants_view() == before.invariants_view().push(inv_view(inv)),
        added.violations_view() == before.violations_view(),
        analyzed.invariants_view() == added.invariants_view() + inferred(state.storage@),
        analyzed.violations_view().map_values(|v: StateViolation| violation_view(v))
            == violations_of(analyzed.invariants_view()),
    ensures
        report_text(added.invariants_view().len(), added.violations_view()) == report_text(
            before.invariants_view().len() + 1,
            before.violations_view(),
        ),
        (exists|i: int|
            0 <= i < analyzed.violations_view().len() && inv_view(
                (#[trigger] analyzed.violations_view()[i]).broken_invariant,
            ) == inv_view(inv)) <==> names_attack(inv.description@),
{
    law_added_invariant_checked(before, added, analyzed, inv, state);
    let vs = violations_of(analyzed.invariants_view());
    let viol = analyzed.violations_view();
    assert(viol.len() == vs.len());
    if names_attack(inv.description@) {
        let v = violation_for(inv_view(inv)).unwrap();
        let k = violations_of(before.invariants_view()).len() as int;
        assert(vs[k] == v);
        assert(violation_view(viol[k]) == vs[k]);
        assert(inv_view(viol[k].broken_invariant) == inv_view(inv));
    }
    if exists|i: int| 0 <= i < viol.len() && inv_view((#[trigger] viol[i]).broken_invariant) == inv_view(inv) {
        let i = choose|i: int| 0 <= i < viol.len() && inv_view((#[trigger] viol[i]).broken_invariant) == inv_view(inv);
        lemma_violations_have_attacks(analyzed.invariants_view());
        assert(violation_view(viol[i]) == vs[i]);
        assert(attack_sequences(vs[i].0.0).len() > 0);
        assert(vs[i].0.0 == inv.description@);
    }
}

fn make_invariant(description: String, expression: String, severity: InvariantSeverity) -> (r: Invariant)
    ensures
        inv_view(r) == (description@, expression@, severity),
{
    Invariant { description, expression, severity }
}

fn concat2(a: &str, b: &str) -> (r: String)
    ensures
        r@ == a@ + b@,
{
    let mut s = owned(a);
    push_str(&mut s, b);
    s
}

fn copy_invariant(i: &Invariant) -> (r: Invariant)
    ensures
        inv_view(r) == inv_view(*i),
{
    Invariant { description: i.description.clone(), expression: i.expression.clone(), severity: i.severity }
}

fn copy_call(c: &FunctionCall) -> (r: FunctionCall)
    ensures
        call_view(r) == call_view(*c),
{
    FunctionCall { function: c.function.clone(), caller: c.caller.clone(), arguments: copy_strings(&c.arguments) }
}

fn copy_violation(v: &StateViolation) -> (r: StateViolation)
    ensures
        violation_view(r) == violation_view(*v),
        r.broken_invariant.severity == v.broken_invariant.severity,
        r.exploit_description@ == v.exploit_description@,
{
    let mut calls: Vec<FunctionCall> = Vec::new();
    let mut i: usize = 0;
    while i < v.attack_sequence.len()
        invariant
            i <= v.attack_sequence@.len(),
            calls@.map_values(|c: FunctionCall| call_view(c)) == v.attack_sequence@.subrange(0, i as int).map_values(|c: FunctionCall| call_view(c)),
        decreases v.attack_sequence@.len() - i,
    {
        let ghost before = calls@;
        let c = copy_call(&v.attack_sequence[i]);
        proof { lemma_map_push(before, c, v.attack_sequence@, i as int, |c: FunctionCall| call_view(c)); }
        calls.push(c);
        i = i + 1;
    }
    assert(v.attack_sequence@.subrange(0, v.attack_sequence@.len() as int) =~= v.attack_sequence@);
    StateViolation {
        broken_invariant: copy_invariant(&v.broken_invariant),
        attack_sequence: calls,
        exploit_description: v.exploit_description.clone(),
    }
}

fn one_call(function: &str, caller: &str, argument: &str) -> (r: FunctionCall)
    ensures
        call_view(r) == (function@, caller@, seq![argument@]),
{
    let mut arguments = Vec::new();
    arguments.push(owned(argument));
    let r = FunctionCall { function: owned(function), caller: owned(caller), arguments };
    assert(strs(r.arguments@) =~= seq![argument@]);
    r
}

pub fn severity_label(s: InvariantSeverity) -> (r: &'static str)
    ensures
        r@ == severity_name(s),
{
    match s {
        InvariantSeverity::Critical => "Critical",
        InvariantSeverity::High => "High",
        InvariantSeverity::Medium => "Medium",
    }
}

impl StateAnalyzer {
    /// The invariants recorded so far.
    pub closed spec fn invariants_view(&self) -> Seq<InvariantV> {
        self.invariants@.map_values(|i: Invariant| inv_view(i))
    }

    /// The violations of the last analysis.
    pub closed spec fn violations_view(&self) -> Seq<StateViolation> {
        self.violations@
    }

    /// An analyzer with no invariants and no violations.
    pub fn new() -> (r: Self)
        ensures
            r.invariants_view().len() == 0,
            r.violations_view().len() == 0,
    {
        StateAnalyzer { invariants: Vec::new(), violations: Vec::new() }
    }

    /// Records an invariant to check.
    pub fn add_invariant(&mut self, inv: Invariant)
        ensures
            final(self).invariants_view() == old(self).invariants_view().push(inv_view(inv)),
            final(self).violations_view() == old(self).violations_view(),
    {
        let ghost before = self.invariants@;
        self.invariants.push(inv);
        assert(self.invariants@.map_values(|i: Invariant| inv_view(i)) =~= before.map_values(|i: Invariant| inv_view(i)).push(inv_view(inv)));
    }

    /// Adds the invariants inferred from `state` to the recorded ones, then
    /// checks every recorded invariant; the violations found replace those of
    /// any earlier analysis and are returned.
    pub fn analyze(&mut self, state: &ContractState) -> (r: Vec<StateViolation>)
        ensures
            final(self).invariants_view() == old(self).invariants_view() + inferred(state.storage@),
            final(self).violations_view().map_values(|v: StateViolation| violation_view(v))
                == violations_of(final(self).invariants_view()),
            r@.map_values(|v: StateViolation| violation_view(v)) == violations_of(final(self).invariants_view()),
    {
        self.violations.clear();
        let common = self.infer_common_invariants(state);
        let ghost before = self.invariants@;
        let mut k: usize = 0;
        while k < common.len()
            invariant
                k <= common@.len(),
                self.violations@.len() == 0,
                self.invariants@.map_values(|i: Invariant| inv_view(i)) == before.map_values(|i: Invariant| inv_view(i))
                    + common@.subrange(0, k as int).map_values(|i: Invariant| inv_view(i)),
            decreases common@.len() - k,
        {
            let ghost pre = self.invariants@;
            let c = copy_invariant(&common[k]);
            proof {
                let f = |i: Invariant| inv_view(i);
                assert(common@.subrange(0, k + 1).map_values(f) =~= common@.subrange(0, k as int).map_values(f).push(f(common@[k as int])));
                assert(pre.push(c).map_values(f) =~= pre.map_values(f).push(f(c)));
            }
            self.invariants.push(c);
            k = k + 1;
        }
        assert(common@.subrange(0, common@.len() as int) =~= common@);
        let ghost invs_now = self.invariants@;
        let mut i: usize = 0;
        while i < self.invariants.len()
            invariant
                self.invariants@ == invs_now,
                i <= self.invariants@.len(),
                self.violations@.map_values(|v: StateViolation| violation_view(v)) == violations_of(
                    self.invariants@.map_values(|x: Invariant| inv_view(x)).subrange(0, i as int),
                ),
            decreases self.invariants@.len() - i,
        {
            let ghost invs = self.invariants@.map_values(|x: Invariant| inv_view(x));
            assert(invs.subrange(0, i + 1).drop_last() =~= invs.subrange(0, i as int));
            let checked = self.check_invariant(state, &self.invariants[i]);
            match checked {
                Some(v) => {
                    let ghost before_v = self.violations@;
                    self.violations.push(v);
                    assert(self.violations@.map_values(|v: StateViolation| violation_view(v)) =~= before_v.map_values(
                        |v: StateViolation| violation_view(v),
                    ).push(violation_view(v)));
                },
                None => {},
            }
            i = i + 1;
        }
        assert(self.invariants@.map_values(|x: Invariant| inv_view(x)).subrange(0, self.invariants@.len() as int)
            =~= self.invariants@.map_values(|x: Invariant| inv_view(x)));
        let mut out: Vec<StateViolation> = Vec::new();
        let mut j: usize = 0;
        while j < self.violations.len()
            invariant
                self.invariants@ == invs_now,
                j <= self.violations@.len(),
                out@.map_values(|v: StateViolation| violation_view(v)) == self.violations@.subrange(0, j as int).map_values(|v: StateViolation| violation_view(v)),
            decreases self.violations@.len() - j,
        {
            let ghost before_o = out@;
            let c = copy_violation(&self.violations[j]);
            proof { lemma_map_push(before_o, c, self.violations@, j as int, |v: StateViolation| violation_view(v)); }
            out.push(c);
            j = j + 1;
        }
        assert(self.violations@.subrange(0, self.violations@.len() as int) =~= self.violations@);
        out
    }

    /// The invariants suggested by the slot names and writers of `state`.
    pub fn infer_common_invariants(&self, state: &ContractState) -> (r: Vec<Invariant>)
        ensures
            r@.map_values(|i: Invariant| inv_view(i)) == inferred(state.storage@),
    {
        let mut invariants: Vec<Invariant> = Vec::new();
        let mut s: usize = 0;
        while s < state.storage.len()
            invariant
                s <= state.storage@.len(),
                invariants@.map_values(|i: Invariant| inv_view(i)) == inferred(state.storage@.subrange(0, s as int)),
            decreases state.storage@.len() - s,
        {
            assert(state.storage@.subrange(0, s + 1).drop_last() =~= state.storage@.subrange(0, s as int));
            let ghost before = invariants@.map_values(|i: Invariant| inv_view(i));
            let name = state.storage[s].0.as_str();
            let slot = &state.storage[s].1;
            let ghost mut added: Seq<InvariantV> = Seq::empty();
            if contains(name, "owner") || contains(name, "admin") {
                invariants.push(make_invariant(concat2(name, " should never be zero address"), concat2(name, " != address(0)"), InvariantSeverity::Critical));
                proof { added = added.push((name@ + " should never be zero address"@, name@ + " != address(0)"@, InvariantSeverity::Critical)); }
            }
            let ghost a1 = added;
            if contains(name, "balance") {
                invariants.push(make_invariant(concat2(name, " should never exceed total supply"), concat2(name, "[user] <= totalSupply"), InvariantSeverity::High));
                proof { added = added.push((name@ + " should never exceed total supply"@, name@ + "[user] <= totalSupply"@, InvariantSeverity::High)); }
            }
            let ghost a2 = added;
            if contains(name, "nonce") || contains(name, "counter") {
                let mut expr = concat2(name, "_new >= ");
                push_str(&mut expr, name);
                push_str(&mut expr, "_old");
                invariants.push(make_invariant(concat2(name, " should only increase"), expr, InvariantSeverity::Medium));
                proof { added = added.push((name@ + " should only increase"@, name@ + "_new >= "@ + name@ + "_old"@, InvariantSeverity::Medium)); }
            }
            let ghost a3 = added;
            let mapping = match &slot.slot_type {
                SlotType::Mapping { .. } => true,
                _ => false,
            };
            if mapping && !slot.written_by.is_empty() && slot.written_by.len() > 1 {
                invariants.push(make_invariant(concat2(name, " has multiple writers - check for race conditions"), concat2("Concurrent writes to ", name), InvariantSeverity::High));
                proof { added = added.push((name@ + " has multiple writers - check for race conditions"@, "Concurrent writes to "@ + name@, InvariantSeverity::High)); }
            }
            proof {
                assert(added =~= inferred_for(name@, *slot));
                assert(invariants@.map_values(|i: Invariant| inv_view(i)) =~= before + added);
            }
            s = s + 1;
        }
        assert(state.storage@.subrange(0, state.storage@.len() as int) =~= state.storage@);
        invariants
    }

    /// The violation for `inv`, if it has an attack sequence.
    fn check_invariant(&self, state: &ContractState, inv: &Invariant) -> (r: Option<StateViolation>)
        ensures
            match r {
                Some(v) => violation_for(inv_view(*inv)) == Some(violation_view(v)),
                None => violation_for(inv_view(*inv)) is None,
            },
    {
        let sequences = self.generate_attack_sequences(state, inv);
        if sequences.len() > 0 {
            let description = self.describe_exploit(&sequences[0], inv);
            let mut calls: Vec<FunctionCall> = Vec::new();
            let mut i: usize = 0;
            while i < sequences[0].len()
                invariant
                    sequences@.len() > 0,
                    i <= sequences@[0]@.len(),
                    calls@.map_values(|c: FunctionCall| call_view(c)) == sequences@[0]@.subrange(0, i as int).map_values(|c: FunctionCall| call_view(c)),
                decreases sequences@[0]@.len() - i,
            {
                let ghost before = calls@;
                let c = copy_call(&sequences[0][i]);
                proof { lemma_map_push(before, c, sequences@[0]@, i as int, |c: FunctionCall| call_view(c)); }
                calls.push(c);
                i = i + 1;
            }
            assert(sequences@[0]@.subrange(0, sequences@[0]@.len() as int) =~= sequences@[0]@);
            Some(StateViolation { broken_invariant: copy_invariant(inv), attack_sequence: calls, exploit_description: description })
        } else {
            None
        }
    }

    /// The attack sequences that would break `inv`.
    fn generate_attack_sequences(&self, state: &ContractState, inv: &Invariant) -> (r: Vec<Vec<FunctionCall>>)
        ensures
            r@.map_values(|s: Vec<FunctionCall>| s@.map_values(|c: FunctionCall| call_view(c))) == attack_sequences(inv.description@),
    {
        let mut sequences: Vec<Vec<FunctionCall>> = Vec::new();
        let d = inv.description.as_str();
        let ghost mut expected: Seq<Seq<CallV>> = Seq::empty();
        if contains(d, "reentrancy") {
            let mut s = Vec::new();
            s.push(one_call("withdraw", "attacker", "amount"));
            s.push(one_call("withdraw", "attacker", "amount"));
            assert(s@.map_values(|c: FunctionCall| call_view(c)) =~= seq![withdraw_call(), withdraw_call()]);
            sequences.push(s);
            proof { expected = expected.push(seq![withdraw_call(), withdraw_call()]); }
        }
        if contains(d, "owner") || contains(d, "admin") {
            let mut s = Vec::new();
            s.push(one_call("transferOwnership", "attacker", "address(0)"));
            assert(s@.map_values(|c: FunctionCall| call_view(c)) =~= seq![("transferOwnership"@, "attacker"@, seq!["address(0)"@])]);
            sequences.push(s);
            proof { expected = expected.push(seq![("transferOwnership"@, "attacker"@, seq!["address(0)"@])]); }
        }
        if contains(d, "balance") {
            let mut s = Vec::new();
            s.push(one_call("mint", "attacker", "MAX_UINT256"));
            assert(s@.map_values(|c: FunctionCall| call_view(c)) =~= seq![("mint"@, "attacker"@, seq!["MAX_UINT256"@])]);
            sequences.push(s);
            proof { expected = expected.push(seq![("mint"@, "attacker"@, seq!["MAX_UINT256"@])]); }
        }
        assert(expected =~= attack_sequences(inv.description@));
        assert(sequences@.map_values(|s: Vec<FunctionCall>| s@.map_values(|c: FunctionCall| call_view(c))) =~= expected);
        sequences
    }

    /// The Markdown description of `sequence` breaking `inv`.
    fn describe_exploit(&self, sequence: &Vec<FunctionCall>, inv: &Invariant) -> (r: String)
        ensures
            r@ == exploit_text(sequence@.map_values(|c: FunctionCall| call_view(c)), inv_view(*inv)),
    {
        let mut d = owned("## Invariant Violation: ");
        push_str(&mut d, inv.description.as_str());
        push_str(&mut d, "\n\n");
        push_str(&mut d, "**Severity**: ");
        push_str(&mut d, severity_label(inv.severity));
        push_str(&mut d, "\n\n");
        push_str(&mut d, "### Attack Sequence:\n\n");
        let ghost head = d@;
        let ghost calls = sequence@.map_values(|c: FunctionCall| call_view(c));
        let mut i: usize = 0;
        while i < sequence.len()
            invariant
                i <= sequence@.len(),
                calls == sequence@.map_values(|c: FunctionCall| call_view(c)),
                d@ == head + call_lines(calls.subrange(0, i as int), 1),
            decreases sequence@.len() - i,
        {
            assert(calls.subrange(0, i + 1).drop_last() =~= calls.subrange(0, i as int));
            let call = &sequence[i];
            push_decimal(&mut d, i + 1);
            push_str(&mut d, ". `");
            push_str(&mut d, call.function.as_str());
            push_str(&mut d, "(");
            push_joined(&mut d, &call.arguments, ", ");
            push_str(&mut d, ")` called by ");
            push_str(&mut d, call.caller.as_str());
            push_str(&mut d, "\n");
            assert(d@ =~= head + call_lines(calls.subrange(0, i + 1), 1));
            i = i + 1;
        }
        assert(calls.subrange(0, sequence@.len() as int) =~= calls);
        push_str(&mut d, "\n### Impact:\nViolates: `");
        push_str(&mut d, inv.expression.as_str());
        push_str(&mut d, "`\n");
        d
    }

    /// The violations of the last analysis.
    pub fn get_violations(&self) -> (r: &Vec<StateViolation>)
        ensures
            r@ == self.violations_view(),
    {
        &self.violations
    }

    /// The violations of the last analysis whose invariant is critical.
    pub fn get_critical_violations(&self) -> (r: Vec<&StateViolation>)
        ensures
            r@.map_values(|v: &StateViolation| *v) == with_severity(self.violations_view(), InvariantSeverity::Critical),
    {
        self.violations_with(InvariantSeverity::Critical)
    }

    fn violations_with(&self, s: InvariantSeverity) -> (r: Vec<&StateViolation>)
        ensures
            r@.map_values(|v: &StateViolation| *v) == with_severity(self.violations@, s),
    {
        let mut out: Vec<&StateViolation> = Vec::new();
        let mut i: usize = 0;
        while i < self.violations.len()
            invariant
                i <= self.violations@.len(),
                out@.map_values(|v: &StateViolation| *v) == with_severity(self.violations@.subrange(0, i as int), s),
            decreases self.violations@.len() - i,
        {
            assert(self.violations@.subrange(0, i + 1).drop_last() =~= self.violations@.subrange(0, i as int));
            let v = &self.violations[i];
            if v.broken_invariant.severity == s {
                let ghost before = out@;
                out.push(v);
                assert(out@.map_values(|v: &StateViolation| *v) =~= before.map_values(|v: &StateViolation| *v).push(*v));
            }
            i = i + 1;
        }
        assert(self.violations@.subrange(0, self.violations@.len() as int) =~= self.violations@);
        out
    }

    /// A Markdown report: the counts, then the critical and the high
    /// violations with their descriptions.
    pub fn export_report(&self) -> (r: String)
        ensures
            r@ == report_text(self.invariants_view().len(), self.violations_view()),
    {
        let mut report = owned("# State Analysis Report\n\n");
        push_str(&mut report, "Total invariants checked: ");
        push_decimal(&mut report, self.invariants.len());
        push_str(&mut report, "\n");
        push_str(&mut report, "Violations found: ");
        push_decimal(&mut report, self.violations.len());
        push_str(&mut report, "\n\n");
        let critical = self.violations_with(InvariantSeverity::Critical);
        push_section(&mut report, "## Critical Violations", &critical);
        let high = self.violations_with(InvariantSeverity::High);
        push_section(&mut report, "## High Severity Violations", &high);
        assert(self.invariants@.map_values(|i: Invariant| inv_view(i)).len() == self.invariants@.len());
        report
    }
}

fn push_section(report: &mut String, title: &str, vs: &Vec<&StateViolation>)
    ensures
        final(report)@ == old(report)@ + report_section(title@, vs@.map_values(|v: &StateViolation| *v)),
{
    let ghost all = vs@.map_values(|v: &StateViolation| *v);
    if vs.len() == 0 {
        return;
    }
    push_str(report, title);
    push_str(report, " (");
    push_decimal(report, vs.len());
    push_str(report, ")\n\n");
    let ghost head = report@;
    let mut i: usize = 0;
    while i < vs.len()
        invariant
            i <= vs@.len(),
            all == vs@.map_values(|v: &StateViolation| *v),
            report@ == head + descriptions(all.subrange(0, i as int)),
        decreases vs@.len() - i,
    {
        assert(all.subrange(0, i + 1).drop_last() =~= all.subrange(0, i as int));
        push_str(report, vs[i].exploit_description.as_str());
        push_str(report, "\n---\n\n");
        assert(report@ =~= head + descriptions(all.subrange(0, i + 1)));
        i = i + 1;
    }
    assert(all.subrange(0, vs@.len() as int) =~= all);
}

impl Default for StateAnalyzer {
    fn default() -> (r: Self)
        ensures
            r.invariants_view().len() == 0,
            r.violations_view().len() == 0,
    {
        StateAnalyzer::new()
    }
}

} // verus!
