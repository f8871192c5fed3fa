//! Taint tracking between sources of attacker-controlled data and dangerous
//! sinks: which variables are tainted, which source/sink pairs form flows,
//! how exploitable each flow is, and the attack scenario it suggests.
//! Exploitability scores are whole percentages.
use vstd::prelude::*;
use crate::text::{strs, copy_strings, owned, push_str, push_decimal, decimal, str_eq};
use crate::dataflow::{first_entry, lemma_first_entry_at, lemma_first_entry_none, lemma_first_entry_update, lemma_first_entry_push};

verus! {

/// Where attacker-controlled data comes from.
#[derive(Debug, Clone)]
pub enum TaintSource {
    MsgSender,
    MsgValue,
    MsgData,
    CallData,
    TxOrigin,
    FunctionParam { func: String, param: String },
    ExternalCallReturn { target: String },
    BlockTimestamp,
    BlockNumber,
}

/// A dangerous operation that tainted data may reach.
#[derive(Debug, Clone)]
pub enum TaintSink {
    EthTransfer,
    TokenTransfer,
    DelegateCall,
    ExternalCall,
    SelfDestruct,
    StorageWrite { var: String },
    AuthorizationCheck,
}

/// How tainted a variable is.
#[derive(Debug, Clone, Copy, PartialEq, Eq, Structural)]
pub enum TaintState {
    Tainted,
    PartiallyTainted,
    Sanitized,
    Clean,
}

/// What an exploit of a flow achieves.
#[derive(Debug, Clone, Copy, PartialEq, Eq, Structural)]
pub enum ExploitImpact {
    FundsDrain,
    PrivilegeEscalation,
    DoS,
    DataCorruption,
}

/// How exploitable a flow is; scores are percentages.
#[derive(Debug, Clone)]
pub struct Exploitability {
    pub score_percent: u32,
    pub confidence_percent: u32,
    pub requirements: Vec<String>,
    pub impact: ExploitImpact,
}

/// A flow from a source to a sink.
#[derive(Debug, Clone)]
pub struct TaintFlow {
    pub source: TaintSource,
    pub sink: TaintSink,
    pub path: Vec<String>,
    pub exploitability: Exploitability,
    pub exploit_scenario: String,
}

/// A summary of the flows of an analysis.
#[derive(Debug, Clone)]
pub struct TaintSummary {
    pub total_flows: usize,
    pub high_risk_flows: usize,
    pub critical_sinks: Vec<String>,
}

/// A source as a mathematical value.
pub enum SourceView {
    MsgSender,
    MsgValue,
    MsgData,
    CallData,
    TxOrigin,
    FunctionParam(Seq<char>, Seq<char>),
    ExternalCallReturn(Seq<char>),
    BlockTimestamp,
    BlockNumber,
}

/// A sink as a mathematical value.
pub enum SinkView {
    EthTransfer,
    TokenTransfer,
    DelegateCall,
    ExternalCall,
    SelfDestruct,
    StorageWrite(Seq<char>),
    AuthorizationCheck,
}

impl View for TaintSource {
    type V = SourceView;

    open spec fn view(&self) -> SourceView {
        match self {
            TaintSource::MsgSender => SourceView::MsgSender,
            TaintSource::MsgValue => SourceView::MsgValue,
            TaintSource::MsgData => SourceView::MsgData,
            TaintSource::CallData => SourceView::CallData,
            TaintSource::TxOrigin => SourceView::TxOrigin,
            TaintSource::FunctionParam { func, param } => SourceView::FunctionParam(func@, param@),
            TaintSource::ExternalCallReturn { target } => SourceView::ExternalCallReturn(target@),
            TaintSource::BlockTimestamp => SourceView::BlockTimestamp,
            TaintSource::BlockNumber => SourceView::BlockNumber,
        }
    }
}

impl View for TaintSink {
    type V = SinkView;

    open spec fn view(&self) -> SinkView {
        match self {
            TaintSink::EthTransfer => SinkView::EthTransfer,
            TaintSink::TokenTransfer => SinkView::TokenTransfer,
            TaintSink::DelegateCall => SinkView::DelegateCall,
            TaintSink::ExternalCall => SinkView::ExternalCall,
            TaintSink::SelfDestruct => SinkView::SelfDestruct,
            TaintSink::StorageWrite { var } => SinkView::StorageWrite(var@),
            TaintSink::AuthorizationCheck => SinkView::AuthorizationCheck,
        }
    }
}

/// A copy of a source.
pub fn copy_source(s: &TaintSource) -> (r: TaintSource)
    ensures
        r@ == s@,
{
    match s {
        TaintSource::MsgSender => TaintSource::MsgSender,
        TaintSource::MsgValue => TaintSource::MsgValue,
        TaintSource::MsgData => TaintSource::MsgData,
        TaintSource::CallData => TaintSource::CallData,
        TaintSource::TxOrigin => TaintSource::TxOrigin,
        TaintSource::FunctionParam { func, param } => TaintSource::FunctionParam {
            func: owned(func.as_str()),
            param: owned(param.as_str()),
        },
        TaintSource::ExternalCallReturn { target } => TaintSource::ExternalCallReturn { target: owned(target.as_str()) },
        TaintSource::BlockTimestamp => TaintSource::BlockTimestamp,
        TaintSource::BlockNumber => TaintSource::BlockNumber,
    }
}

/// A copy of a sink.
pub fn copy_sink(s: &TaintSink) -> (r: TaintSink)
    ensures
        r@ == s@,
{
    match s {
        TaintSink::EthTransfer => TaintSink::EthTransfer,
        TaintSink::TokenTransfer => TaintSink::TokenTransfer,
        TaintSink::DelegateCall => TaintSink::DelegateCall,
        TaintSink::ExternalCall => TaintSink::ExternalCall,
        TaintSink::SelfDestruct => TaintSink::SelfDestruct,
        TaintSink::StorageWrite { var } => TaintSink::StorageWrite { var: owned(var.as_str()) },
        TaintSink::AuthorizationCheck => TaintSink::AuthorizationCheck,
    }
}

/// How `str`'s `Debug` prints a text: quoted, with special characters escaped.
pub uninterp spec fn debug_quoted(s: Seq<char>) -> Seq<char>;

/// `<str as Debug>::fmt`: the quoted and escaped form of `s`. Its result is
/// named by `debug_quoted`; nothing more is stated of it.
#[verifier::external_body]
fn debug_quote(s: &str) -> (r: String)
    ensures
        r@ == debug_quoted(s@),
{
    format!("{:?}", s)
}

/// The name of a source as its `Debug` form prints it.
pub open spec fn source_label(s: SourceView) -> Seq<char> {
    match s {
        SourceView::MsgSender => "MsgSender"@,
        SourceView::MsgValue => "MsgValue"@,
        SourceView::MsgData => "MsgData"@,
        SourceView::CallData => "CallData"@,
        SourceView::TxOrigin => "TxOrigin"@,
        SourceView::FunctionParam(f, p) => "FunctionParam { func: "@ + debug_quoted(f) + ", param: "@ + debug_quoted(p)
            + " }"@,
        SourceView::ExternalCallReturn(t) => "ExternalCallReturn { target: "@ + debug_quoted(t) + " }"@,
        SourceView::BlockTimestamp => "BlockTimestamp"@,
        SourceView::BlockNumber => "BlockNumber"@,
    }
}

/// The name of a sink as its `Debug` form prints it.
pub open spec fn sink_label(s: SinkView) -> Seq<char> {
    match s {
        SinkView::EthTransfer => "EthTransfer"@,
        SinkView::TokenTransfer => "TokenTransfer"@,
        SinkView::DelegateCall => "DelegateCall"@,
        SinkView::ExternalCall => "ExternalCall"@,
        SinkView::SelfDestruct => "SelfDestruct"@,
        SinkView::StorageWrite(v) => "StorageWrite { var: "@ + debug_quoted(v) + " }"@,
        SinkView::AuthorizationCheck => "AuthorizationCheck"@,
    }
}

/// Appends the `Debug` form of a source.
pub fn push_source_label(out: &mut String, s: &TaintSource)
    ensures
        final(out)@ == old(out)@ + source_label(s@),
{
    match s {
        TaintSource::MsgSender => push_str(out, "MsgSender"),
        TaintSource::MsgValue => push_str(out, "MsgValue"),
        TaintSource::MsgData => push_str(out, "MsgData"),
        TaintSource::CallData => push_str(out, "CallData"),
        TaintSource::TxOrigin => push_str(out, "TxOrigin"),
        TaintSource::FunctionParam { func, param } => {
            push_str(out, "FunctionParam { func: ");
            let f = debug_quote(func.as_str());
            push_str(out, f.as_str());
            push_str(out, ", param: ");
            let p = debug_quote(param.as_str());
            push_str(out, p.as_str());
            push_str(out, " }");
        },
        TaintSource::ExternalCallReturn { target } => {
            push_str(out, "ExternalCallReturn { target: ");
            let t = debug_quote(target.as_str());
            push_str(out, t.as_str());
            push_str(out, " }");
        },
        TaintSource::BlockTimestamp => push_str(out, "BlockTimestamp"),
        TaintSource::BlockNumber => push_str(out, "BlockNumber"),
    }
}

/// Appends the `Debug` form of a sink.
pub fn push_sink_label(out: &mut String, s: &TaintSink)
    ensures
        final(out)@ == old(out)@ + sink_label(s@),
{
    match s {
        TaintSink::EthTransfer => push_str(out, "EthTransfer"),
        TaintSink::TokenTransfer => push_str(out, "TokenTransfer"),
        TaintSink::DelegateCall => push_str(out, "DelegateCall"),
        TaintSink::ExternalCall => push_str(out, "ExternalCall"),
        TaintSink::SelfDestruct => push_str(out, "SelfDestruct"),
        TaintSink::StorageWrite { var } => {
            push_str(out, "StorageWrite { var: ");
            let v = debug_quote(var.as_str());
            push_str(out, v.as_str());
            push_str(out, " }");
        },
        TaintSink::AuthorizationCheck => push_str(out, "AuthorizationCheck"),
    }
}

/// The exploitability score of a flow, in percent: 50, plus 40 for a value
/// transfer, 50 for a delegate call or self-destruct, 20 for a storage write,
/// plus 10 from a function parameter, 15 from an external call's return, 20
/// from `tx.origin`, at most 100.
pub open spec fn flow_score(src: SourceView, snk: SinkView) -> u32 {
    let by_sink: int = match snk {
        SinkView::EthTransfer | SinkView::TokenTransfer => 40,
        SinkView::DelegateCall | SinkView::SelfDestruct => 50,
        SinkView::StorageWrite(_) => 20,
        _ => 0,
    };
    let by_source: int = match src {
        SourceView::FunctionParam(_, _) => 10,
        SourceView::ExternalCallReturn(_) => 15,
        SourceView::TxOrigin => 20,
        _ => 0,
    };
    if 50 + by_sink + by_source > 100 { 100 } else { (50 + by_sink + by_source) as u32 }
}

/// The impact of reaching a sink.
pub open spec fn sink_impact(snk: SinkView) -> ExploitImpact {
    match snk {
        SinkView::EthTransfer | SinkView::TokenTransfer => ExploitImpact::FundsDrain,
        SinkView::DelegateCall => ExploitImpact::PrivilegeEscalation,
        SinkView::SelfDestruct => ExploitImpact::DoS,
        _ => ExploitImpact::DataCorruption,
    }
}

/// What an attacker needs to exploit data from a source.
pub open spec fn source_requirements(src: SourceView) -> Seq<Seq<char>> {
    match src {
        SourceView::ExternalCallReturn(_) => seq!["Control external contract"@],
        SourceView::TxOrigin => seq!["Phishing attack"@],
        _ => Seq::empty(),
    }
}

/// The confidence of every assessment, in percent.
pub const FLOW_CONFIDENCE_PERCENT: u32 = 70;

/// Assesses how exploitable a flow from `source` to `sink` is.
pub fn assess_exploitability(source: &TaintSource, sink: &TaintSink) -> (r: Exploitability)
    ensures
        r.score_percent == flow_score(source@, sink@),
        r.confidence_percent == FLOW_CONFIDENCE_PERCENT,
        r.impact == sink_impact(sink@),
        strs(r.requirements@) == source_requirements(source@),
{
    let mut score: u32 = 50;
    let mut reqs_found: Vec<String> = Vec::new();
    let impact = match sink {
        TaintSink::EthTransfer | TaintSink::TokenTransfer => {
            score = score + 40;
            ExploitImpact::FundsDrain
        },
        TaintSink::DelegateCall => {
            score = score + 50;
            ExploitImpact::PrivilegeEscalation
        },
        TaintSink::SelfDestruct => {
            score = score + 50;
            ExploitImpact::DoS
        },
        TaintSink::StorageWrite { .. } => {
            score = score + 20;
            ExploitImpact::DataCorruption
        },
        _ => ExploitImpact::DataCorruption,
    };
    match source {
        TaintSource::FunctionParam { .. } => {
            score = score + 10;
        },
        TaintSource::ExternalCallReturn { .. } => {
            score = score + 15;
            reqs_found.push(owned("Control external contract"));
        },
        TaintSource::TxOrigin => {
            score = score + 20;
            reqs_found.push(owned("Phishing attack"));
        },
        _ => {},
    }
    if score > 100 {
        score = 100;
    }
    proof {
        assert(strs(reqs_found@) =~= source_requirements(source@));
    }
    Exploitability { score_percent: score, confidence_percent: FLOW_CONFIDENCE_PERCENT, requirements: reqs_found, impact }
}

/// The three attack steps of a flow.
pub open spec fn attack_steps(src: SourceView, snk: SinkView) -> Seq<char> {
    let generic = "1. Attacker provides malicious input\n"@ + "2. Data flows without proper validation\n"@
        + "3. Dangerous operation executed\n"@;
    match src {
        SourceView::FunctionParam(f, p) => match snk {
            SinkView::EthTransfer => "1. Attacker calls `"@ + f + "` with malicious `"@ + p + "` value\n"@
                + "2. Tainted data flows to ETH transfer\n"@ + "3. Funds sent to attacker-controlled address\n"@,
            _ => generic,
        },
        SourceView::ExternalCallReturn(t) => match snk {
            SinkView::StorageWrite(v) => "1. Attacker deploys malicious contract at "@ + t + "\n"@
                + "2. Malicious contract returns crafted data\n"@ + "3. Tainted data written to storage `"@ + v
                + "`\n"@,
            _ => generic,
        },
        SourceView::TxOrigin => match snk {
            SinkView::AuthorizationCheck => "1. Attacker tricks victim into calling malicious contract\n"@
                + "2. Malicious contract calls vulnerable function\n"@
                + "3. tx.origin check passes with victim's address\n"@,
            _ => generic,
        },
        _ => generic,
    }
}

/// One bullet line per requirement.
pub open spec fn bullets(reqs: Seq<Seq<char>>) -> Seq<char>
    decreases reqs.len(),
{
    if reqs.len() == 0 {
        Seq::empty()
    } else {
        bullets(reqs.drop_last()) + "- "@ + reqs.last() + "\n"@
    }
}

/// The exploit scenario of a flow from `src` to `snk`.
pub open spec fn scenario_text(src: SourceView, snk: SinkView) -> Seq<char> {
    let reqs = source_requirements(src);
    "## Exploit Scenario\n\n"@ + "**Source**: "@ + source_label(src) + "\n"@ + "**Sink**: "@ + sink_label(snk) + "\n"@
        + "**Exploitability**: "@ + decimal(flow_score(src, snk) as nat) + "%\n\n"@ + "### Attack Steps:\n\n"@
        + attack_steps(src, snk) + if reqs.len() == 0 {
        Seq::<char>::empty()
    } else {
        "\n### Prerequisites:\n"@ + bullets(reqs)
    }
}

fn push_attack_steps(out: &mut String, source: &TaintSource, sink: &TaintSink)
    ensures
        final(out)@ == old(out)@ + attack_steps(source@, sink@),
{
    let ghost o = out@;
    let mut generic = true;
    match source {
        TaintSource::FunctionParam { func, param } => match sink {
            TaintSink::EthTransfer => {
                push_str(out, "1. Attacker calls `");
                push_str(out, func.as_str());
                push_str(out, "` with malicious `");
                push_str(out, param.as_str());
                push_str(out, "` value\n");
                push_str(out, "2. Tainted data flows to ETH transfer\n");
                push_str(out, "3. Funds sent to attacker-controlled address\n");
                generic = false;
            },
            _ => {},
        },
        TaintSource::ExternalCallReturn { target } => match sink {
            TaintSink::StorageWrite { var } => {
                push_str(out, "1. Attacker deploys malicious contract at ");
                push_str(out, target.as_str());
                push_str(out, "\n");
                push_str(out, "2. Malicious contract returns crafted data\n");
                push_str(out, "3. Tainted data written to storage `");
                push_str(out, var.as_str());
                push_str(out, "`\n");
                generic = false;
            },
            _ => {},
        },
        TaintSource::TxOrigin => match sink {
            TaintSink::AuthorizationCheck => {
                push_str(out, "1. Attacker tricks victim into calling malicious contract\n");
                push_str(out, "2. Malicious contract calls vulnerable function\n");
                push_str(out, "3. tx.origin check passes with victim's address\n");
                generic = false;
            },
            _ => {},
        },
        _ => {},
    }
    if generic {
        push_str(out, "1. Attacker provides malicious input\n");
        push_str(out, "2. Data flows without proper validation\n");
        push_str(out, "3. Dangerous operation executed\n");
    }
    assert(out@ =~= o + attack_steps(source@, sink@));
}

/// Writes the exploit scenario of a flow with the given exploitability.
pub fn generate_exploit_scenario(source: &TaintSource, sink: &TaintSink, exploitability: &Exploitability) -> (r: String)
    requires
        exploitability.score_percent == flow_score(source@, sink@),
        strs(exploitability.requirements@) == source_requirements(source@),
    ensures
        r@ == scenario_text(source@, sink@),
{
    let mut out = owned("## Exploit Scenario\n\n");
    push_str(&mut out, "**Source**: ");
    push_source_label(&mut out, source);
    push_str(&mut out, "\n");
    push_str(&mut out, "**Sink**: ");
    push_sink_label(&mut out, sink);
    push_str(&mut out, "\n");
    push_str(&mut out, "**Exploitability**: ");
    push_decimal(&mut out, exploitability.score_percent as usize);
    push_str(&mut out, "%\n\n");
    push_str(&mut out, "### Attack Steps:\n\n");
    push_attack_steps(&mut out, source, sink);
    let ghost before = out@;
    let ghost reqs = strs(exploitability.requirements@);
    if exploitability.requirements.len() > 0 {
        push_str(&mut out, "\n### Prerequisites:\n");
        let ghost head = out@;
        let mut i: usize = 0;
        while i < exploitability.requirements.len()
            invariant
                i <= exploitability.requirements.len(),
                reqs == strs(exploitability.requirements@),
                out@ == head + bullets(reqs.take(i as int)),
            decreases exploitability.requirements.len() - i,
        {
            assert(reqs.take(i + 1).drop_last() =~= reqs.take(i as int));
            push_str(&mut out, "- ");
            push_str(&mut out, exploitability.requirements[i].as_str());
            push_str(&mut out, "\n");
            i = i + 1;
        }
        assert(reqs.take(i as int) =~= reqs);
    }
    assert(out@ =~= scenario_text(source@, sink@));
    out
}

/// A flow as a mathematical value.
pub struct FlowView {
    pub source: SourceView,
    pub sink: SinkView,
    pub path: Seq<Seq<char>>,
    pub score: u32,
    pub confidence: u32,
    pub requirements: Seq<Seq<char>>,
    pub impact: ExploitImpact,
    pub scenario: Seq<char>,
}

impl View for TaintFlow {
    type V = FlowView;

    open spec fn view(&self) -> FlowView {
        FlowView {
            source: self.source@,
            sink: self.sink@,
            path: strs(self.path@),
            score: self.exploitability.score_percent,
            confidence: self.exploitability.confidence_percent,
            requirements: strs(self.exploitability.requirements@),
            impact: self.exploitability.impact,
            scenario: self.exploit_scenario@,
        }
    }
}

/// The flow from `src` to `snk`: its path names both, and its assessment and
/// scenario are those of the pair.
pub open spec fn expected_flow(src: SourceView, snk: SinkView) -> FlowView {
    FlowView {
        source: src,
        sink: snk,
        path: seq![source_label(src), sink_label(snk)],
        score: flow_score(src, snk),
        confidence: FLOW_CONFIDENCE_PERCENT,
        requirements: source_requirements(src),
        impact: sink_impact(snk),
        scenario: scenario_text(src, snk),
    }
}

/// The flows of every source with every sink, source by source; a pair forms
/// a flow when its score is above 30.
pub open spec fn flows_for(sources: Seq<SourceView>, sinks: Seq<SinkView>) -> Seq<FlowView>
    decreases sources.len(),
{
    if sources.len() == 0 {
        Seq::empty()
    } else {
        flows_for(sources.drop_last(), sinks) + pair_flows(sources.last(), sinks, sinks.len())
    }
}

/// The flows from `src` to the first `n` sinks.
pub open spec fn pair_flows(src: SourceView, sinks: Seq<SinkView>, n: nat) -> Seq<FlowView>
    decreases n,
{
    if n == 0 {
        Seq::empty()
    } else {
        let prev = pair_flows(src, sinks, (n - 1) as nat);
        if flow_score(src, sinks[n - 1]) > 30 { prev.push(expected_flow(src, sinks[n - 1])) } else { prev }
    }
}

/// The views of a sequence of flows.
pub open spec fn flow_views(fs: Seq<TaintFlow>) -> Seq<FlowView> {
    fs.map_values(|f: TaintFlow| f@)
}

/// A copy of an exploitability assessment.
pub fn copy_exploitability(e: &Exploitability) -> (r: Exploitability)
    ensures
        r.score_percent == e.score_percent,
        r.confidence_percent == e.confidence_percent,
        r.requirements@ == e.requirements@,
        r.impact == e.impact,
{
    Exploitability {
        score_percent: e.score_percent,
        confidence_percent: e.confidence_percent,
        requirements: copy_strings(&e.requirements),
        impact: e.impact,
    }
}

/// A copy of a flow.
pub fn copy_flow(f: &TaintFlow) -> (r: TaintFlow)
    ensures
        r@ == f@,
{
    TaintFlow {
        source: copy_source(&f.source),
        sink: copy_sink(&f.sink),
        path: copy_strings(&f.path),
        exploitability: copy_exploitability(&f.exploitability),
        exploit_scenario: owned(f.exploit_scenario.as_str()),
    }
}

/// The flow from `source` to `sink` when its score is above 30.
pub fn check_flow(source: &TaintSource, sink: &TaintSink) -> (r: Option<TaintFlow>)
    ensures
        match r {
            Some(f) => flow_score(source@, sink@) > 30 && f@ == expected_flow(source@, sink@),
            None => flow_score(source@, sink@) <= 30,
        },
{
    let exploitability = assess_exploitability(source, sink);
    if exploitability.score_percent > 30 {
        let mut path: Vec<String> = Vec::new();
        let mut a = String::new();
        push_source_label(&mut a, source);
        let mut b = String::new();
        push_sink_label(&mut b, sink);
        path.push(a);
        path.push(b);
        let exploit_scenario = generate_exploit_scenario(source, sink, &exploitability);
        let f = TaintFlow {
            source: copy_source(source),
            sink: copy_sink(sink),
            path,
            exploitability,
            exploit_scenario,
        };
        proof {
            assert(strs(f.path@) =~= seq![source_label(source@), sink_label(sink@)]);
        }
        Some(f)
    } else {
        None
    }
}

/// Tracks tainted variables and the sources and sinks of a contract.
pub struct TaintAnalyzer {
    taint_state: Vec<(String, TaintState)>,
    sources: Vec<TaintSource>,
    sinks: Vec<TaintSink>,
    flows: Vec<TaintFlow>,
    sanitizers: Vec<String>,
}

impl TaintAnalyzer {
    /// The recorded state of a variable.
    pub closed spec fn state_of(&self, var: Seq<char>) -> Option<TaintState> {
        first_entry(self.taint_state@, var)
    }

    /// The sources added so far.
    pub closed spec fn source_views(&self) -> Seq<SourceView> {
        self.sources@.map_values(|s: TaintSource| s@)
    }

    /// The sinks added so far.
    pub closed spec fn sink_views(&self) -> Seq<SinkView> {
        self.sinks@.map_values(|s: TaintSink| s@)
    }

    /// The flows found by the last analysis.
    pub closed spec fn flow_seq(&self) -> Seq<TaintFlow> {
        self.flows@
    }

    /// The names that sanitize tainted data.
    pub closed spec fn sanitizer_names(&self) -> Seq<Seq<char>> {
        strs(self.sanitizers@)
    }

    /// An analyzer with no taint, sources, sinks or flows; `require`, `assert`
    /// and `onlyOwner` sanitize.
    pub fn new() -> (r: Self)
        ensures
            forall|k: Seq<char>| r.state_of(k) is None,
            r.source_views() == Seq::<SourceView>::empty(),
            r.sink_views() == Seq::<SinkView>::empty(),
            r.flow_seq() == Seq::<TaintFlow>::empty(),
            r.sanitizer_names() == seq!["require"@, "assert"@, "onlyOwner"@],
    {
        let mut sanitizers: Vec<String> = Vec::new();
        sanitizers.push(owned("require"));
        sanitizers.push(owned("assert"));
        sanitizers.push(owned("onlyOwner"));
        let r = TaintAnalyzer {
            taint_state: Vec::new(),
            sources: Vec::new(),
            sinks: Vec::new(),
            flows: Vec::new(),
            sanitizers,
        };
        proof {
            assert forall|k: Seq<char>| r.state_of(k) is None by {
                lemma_first_entry_none(r.taint_state@, k);
            }
            assert(r.source_views() =~= Seq::<SourceView>::empty());
            assert(r.sink_views() =~= Seq::<SinkView>::empty());
            assert(r.sanitizer_names() =~= seq!["require"@, "assert"@, "onlyOwner"@]);
        }
        r
    }

    /// Adds a source.
    pub fn add_source(&mut self, source: TaintSource)
        ensures
            final(self).source_views() == old(self).source_views().push(source@),
            final(self).sink_views() == old(self).sink_views(),
            final(self).flow_seq() == old(self).flow_seq(),
            forall|k: Seq<char>| final(self).state_of(k) == old(self).state_of(k),
    {
        let ghost sv = source@;
        self.sources.push(source);
        assert(self.source_views() =~= old(self).source_views().push(sv));
    }

    /// Adds a sink.
    pub fn add_sink(&mut self, sink: TaintSink)
        ensures
            final(self).sink_views() == old(self).sink_views().push(sink@),
            final(self).source_views() == old(self).source_views(),
            final(self).flow_seq() == old(self).flow_seq(),
            forall|k: Seq<char>| final(self).state_of(k) == old(self).state_of(k),
    {
        let ghost sv = sink@;
        self.sinks.push(sink);
        assert(self.sink_views() =~= old(self).sink_views().push(sv));
    }

    /// Marks a variable as tainted.
    pub fn mark_tainted(&mut self, var: &str)
        ensures
            forall|k: Seq<char>| #[trigger] final(self).state_of(k) == if k == var@ {
                Some(TaintState::Tainted)
            } else {
                old(self).state_of(k)
            },
            final(self).source_views() == old(self).source_views(),
            final(self).sink_views() == old(self).sink_views(),
            final(self).flow_seq() == old(self).flow_seq(),
    {
        let ghost old_v = self.taint_state@;
        let mut k: usize = 0;
        while k < self.taint_state.len()
            invariant
                k <= self.taint_state.len(),
                self.taint_state@ == old_v,
                old_v == old(self).taint_state@,
                self.sources@ == old(self).sources@,
                self.sinks@ == old(self).sinks@,
                self.flows@ == old(self).flows@,
                forall|j: int| 0 <= j < k ==> (#[trigger] old_v[j]).0@ != var@,
            decreases self.taint_state.len() - k,
        {
            if str_eq(self.taint_state[k].0.as_str(), var) {
                let e = (owned(var), TaintState::Tainted);
                proof {
                    lemma_first_entry_at(old_v.update(k as int, e), var@, k as int);
                    assert forall|q: Seq<char>| q != var@ implies first_entry(old_v.update(k as int, e), q)
                        == first_entry(old_v, q) by {
                        lemma_first_entry_update(old_v, k as int, e, q);
                    }
                }
                self.taint_state.set(k, e);
                return;
            }
            k = k + 1;
        }
        let e = (owned(var), TaintState::Tainted);
        proof {
            lemma_first_entry_none(old_v, var@);
            lemma_first_entry_at(old_v.push(e), var@, old_v.len() as int);
            assert forall|q: Seq<char>| q != var@ implies first_entry(old_v.push(e), q) == first_entry(old_v, q) by {
                lemma_first_entry_push(old_v, e, q);
            }
        }
        self.taint_state.push(e);
    }

    /// Whether a variable is tainted or partially tainted.
    pub fn is_tainted(&self, var: &str) -> (r: bool)
        ensures
            r == (self.state_of(var@) == Some(TaintState::Tainted) || self.state_of(var@) == Some(
                TaintState::PartiallyTainted,
            )),
    {
        let mut k: usize = 0;
        while k < self.taint_state.len()
            invariant
                k <= self.taint_state.len(),
                forall|j: int| 0 <= j < k ==> (#[trigger] self.taint_state@[j]).0@ != var@,
            decreases self.taint_state.len() - k,
        {
            if str_eq(self.taint_state[k].0.as_str(), var) {
                proof {
                    lemma_first_entry_at(self.taint_state@, var@, k as int);
                }
                let st = self.taint_state[k].1;
                return st == TaintState::Tainted || st == TaintState::PartiallyTainted;
            }
            k = k + 1;
        }
        proof {
            lemma_first_entry_none(self.taint_state@, var@);
        }
        false
    }

    /// Pairs every source with every sink, source by source, keeps the pairs
    /// that form flows, records them as this analyzer's flows and returns them.
    pub fn analyze(&mut self) -> (r: Vec<TaintFlow>)
        ensures
            flow_views(r@) == flows_for(old(self).source_views(), old(self).sink_views()),
            flow_views(final(self).flow_seq()) == flow_views(r@),
            final(self).source_views() == old(self).source_views(),
            final(self).sink_views() == old(self).sink_views(),
            forall|k: Seq<char>| final(self).state_of(k) == old(self).state_of(k),
    {
        let ghost srcs = self.source_views();
        let ghost snks = self.sink_views();
        let mut flows: Vec<TaintFlow> = Vec::new();
        let mut out: Vec<TaintFlow> = Vec::new();
        let mut i: usize = 0;
        while i < self.sources.len()
            invariant
                i <= self.sources.len(),
                srcs == self.source_views(),
                snks == self.sink_views(),
                srcs.len() == self.sources.len(),
                snks.len() == self.sinks.len(),
                flow_views(flows@) == flows_for(srcs.take(i as int), snks),
                flow_views(out@) == flow_views(flows@),
            decreases self.sources.len() - i,
        {
            let mut j: usize = 0;
            let ghost before = flow_views(flows@);
            while j < self.sinks.len()
                invariant
                    i < self.sources.len(),
                    j <= self.sinks.len(),
                    srcs == self.source_views(),
                    snks == self.sink_views(),
                    srcs.len() == self.sources.len(),
                    snks.len() == self.sinks.len(),
                    flow_views(flows@) == before + pair_flows(srcs[i as int], snks, j as nat),
                    flow_views(out@) == flow_views(flows@),
                decreases self.sinks.len() - j,
            {
                assert(srcs[i as int] == self.sources@[i as int]@);
                assert(snks[j as int] == self.sinks@[j as int]@);
                match check_flow(&self.sources[i], &self.sinks[j]) {
                    Some(f) => {
                        let c = copy_flow(&f);
                        let ghost fv = f@;
                        let ghost fl = flows@;
                        let ghost ol = out@;
                        out.push(c);
                        flows.push(f);
                        assert(flow_views(flows@) =~= flow_views(fl).push(fv));
                        assert(flow_views(out@) =~= flow_views(ol).push(fv));
                    },
                    None => {},
                }
                j = j + 1;
            }
            assert(srcs.take(i + 1).drop_last() =~= srcs.take(i as int));
            assert(srcs.take(i + 1).last() == srcs[i as int]);
            i = i + 1;
        }
        assert(srcs.take(i as int) =~= srcs);
        self.flows = flows;
        out
    }

    /// The flows found by the last analysis.
    pub fn get_flows(&self) -> (r: &[TaintFlow])
        ensures
            r@ == self.flow_seq(),
    {
        self.flows.as_slice()
    }

    /// The flows of the last analysis whose score is at least 70, in order.
    pub fn get_high_risk_flows(&self) -> (r: Vec<&TaintFlow>)
        ensures
            r.len() == high_risk(self.flow_seq(), self.flow_seq().len()).len(),
            forall|k: int| 0 <= k < r.len() ==> *r@[k] == high_risk(self.flow_seq(), self.flow_seq().len())[k],
    {
        let mut r: Vec<&TaintFlow> = Vec::new();
        let mut i: usize = 0;
        while i < self.flows.len()
            invariant
                i <= self.flows.len(),
                r.len() == high_risk(self.flows@, i as nat).len(),
                forall|k: int| 0 <= k < r.len() ==> *r@[k] == high_risk(self.flows@, i as nat)[k],
            decreases self.flows.len() - i,
        {
            if self.flows[i].exploitability.score_percent >= HIGH_RISK_PERCENT {
                r.push(&self.flows[i]);
            }
            i = i + 1;
        }
        r
    }
}

/// The score from which a flow is high-risk, in percent.
pub const HIGH_RISK_PERCENT: u32 = 70;

/// The flows among the first `n` whose score is at least 70, in order.
pub open spec fn high_risk(fs: Seq<TaintFlow>, n: nat) -> Seq<TaintFlow>
    decreases n,
{
    if n == 0 {
        Seq::empty()
    } else {
        let prev = high_risk(fs, (n - 1) as nat);
        if fs[n - 1].exploitability.score_percent >= HIGH_RISK_PERCENT { prev.push(fs[n - 1]) } else { prev }
    }
}

impl Default for TaintAnalyzer {
    fn default() -> (r: Self)
        ensures
            forall|k: Seq<char>| r.state_of(k) is None,
            r.source_views() == Seq::<SourceView>::empty(),
            r.sink_views() == Seq::<SinkView>::empty(),
            r.flow_seq() == Seq::<TaintFlow>::empty(),
    {
        TaintAnalyzer::new()
    }
}

proof fn lemma_pair_flows_all(src: SourceView, sinks: Seq<SinkView>, n: nat)
    requires
        n <= sinks.len(),
    ensures
        pair_flows(src, sinks, n).len() == n,
        forall|j: int| 0 <= j < n ==> #[trigger] pair_flows(src, sinks, n)[j] == expected_flow(src, sinks[j]),
    decreases n,
{
    if n > 0 {
        lemma_pair_flows_all(src, sinks, (n - 1) as nat);
        assert(flow_score(src, sinks[n - 1]) >= 50);
    }
}

/// Every source forms a flow with every sink: an analysis of `n` sources and
/// `m` sinks finds `n * m` flows, the flow of source `i` and sink `j` at
/// position `i * m + j`.
pub proof fn law_every_pair_flows(sources: Seq<SourceView>, sinks: Seq<SinkView>)
    ensures
        flows_for(sources, sinks).len() == sources.len() * sinks.len(),
        forall|i: int, j: int|
            0 <= i < sources.len() && 0 <= j < sinks.len() ==> #[trigger] flows_for(sources, sinks)[i * sinks.len() + j]
                == expected_flow(sources[i], sinks[j]),
    decreases sources.len(),
{
    let m = sinks.len();
    if sources.len() > 0 {
        let prev = sources.drop_last();
        law_every_pair_flows(prev, sinks);
        lemma_pair_flows_all(sources.last(), sinks, m);
        let n1 = prev.len();
        assert(n1 * m + m == sources.len() * m) by (nonlinear_arith)
            requires
                n1 + 1 == sources.len(),
        ;
        assert forall|i: int, j: int| 0 <= i < sources.len() && 0 <= j < m implies #[trigger] flows_for(sources, sinks)[i
            * m + j] == expected_flow(sources[i], sinks[j]) by {
            if i < n1 {
                assert(i * m + j < n1 * m) by (nonlinear_arith)
                    requires
                        0 <= i < n1,
                        0 <= j < m,
                ;
                assert(sources[i] == prev[i]);
            } else {
                assert(i * m == n1 * m);
            }
        }
    }
}

} // verus!
