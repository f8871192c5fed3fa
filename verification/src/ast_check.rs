//! The syntax-tree checks that confirm or dismiss a finding: unprotected
//! initializers, and withdraw, mint and burn functions without access
//! control. They read the facts of each function of the parsed contract (its
//! name, its span, its modifiers, and which of its first statements check the
//! caller), read off the tree `solang_parser` builds for the source.
use vstd::prelude::*;
use crate::text::{owned, contains, str_has, str_eq, strs, joined, push_joined};
use crate::scanner::ValidationResult;
use solang_parser::pt::{ContractPart, Expression, FunctionAttribute, FunctionDefinition, SourceUnitPart, Statement};

verus! {

/// What the checks need to know of one function of a contract.
#[derive(Debug, Clone)]
pub struct FunctionFacts {
    /// Its name, if it has one.
    pub name: Option<String>,
    /// Where it starts and ends in the source.
    pub start: usize,
    pub end: usize,
    /// The names of its modifiers, each with its path joined by dots.
    pub modifiers: Vec<String>,
    /// For each of the first (at most five) statements of its body block,
    /// whether it checks the caller inline: an `if` on a comparison whose
    /// branch reverts or is an expression, or a call statement.
    pub leading_checks: Vec<bool>,
}

/// The modifier names that mean access control.
pub open spec fn access_modifier_names() -> Seq<Seq<char>> {
    seq![
        "onlyOwner"@, "onlyAdmin"@, "onlyMinter"@, "onlyBurner"@, "onlyRole"@, "onlyGovernance"@, "onlyController"@,
        "onlyManager"@, "hasRole"@, "authorized"@, "onlyAuthorized"@,
    ]
}

/// Some modifier of `mods` contains some name of `names`.
pub open spec fn some_modifier_has(mods: Seq<Seq<char>>, names: Seq<Seq<char>>) -> bool {
    exists|i: int, j: int| 0 <= i < mods.len() && 0 <= j < names.len() && str_has(#[trigger] mods[i], #[trigger] names[j])
}

/// The verdict of the access-control check of a function.
pub open spec fn access_verdict(f: FunctionFacts) -> ValidationResult {
    if some_modifier_has(strs(f.modifiers@), access_modifier_names()) {
        ValidationResult::Protected("Has access control modifier")
    } else if exists|k: int| 0 <= k < f.leading_checks.len() && f.leading_checks@[k] {
        ValidationResult::Protected("Has inline access check")
    } else {
        ValidationResult::Vulnerable
    }
}

/// The verdict of the initializer check of a function.
pub open spec fn initializer_verdict(f: FunctionFacts) -> ValidationResult {
    if some_modifier_has(strs(f.modifiers@), seq!["initializer"@, "reinitializer"@]) {
        ValidationResult::Protected("Has initializer modifier")
    } else {
        ValidationResult::Vulnerable
    }
}

/// Which function a check of pattern `p` is about, by name; `None` for a
/// pattern no check applies to.
pub open spec fn name_fits(p: Seq<char>, name: Seq<char>) -> Option<bool> {
    if p == "unprotected-initialize"@ {
        Some(str_has(name, "initialize"@))
    } else if p == "public-withdraw-no-auth"@ {
        Some(str_has(name, "withdraw"@))
    } else if p == "external-mint-no-modifier"@ {
        Some(name == "mint"@)
    } else if p == "external-burn-no-modifier"@ {
        Some(name == "burn"@)
    } else {
        None
    }
}

/// The function `f` is the one checked for pattern `p` at `line`: it spans
/// the line and its name fits the pattern.
pub open spec fn is_checked(f: FunctionFacts, p: Seq<char>, line: usize) -> bool {
    f.start <= line <= f.end && (f.name matches Some(n) && name_fits(p, n@) == Some(true))
}

/// The verdict for pattern `p` at `line` over the first `n` functions: that of
/// the first function checked, not applicable when there is none.
pub open spec fn verdict_of(fs: Seq<FunctionFacts>, p: Seq<char>, line: usize, n: nat) -> ValidationResult
    decreases n,
{
    if n == 0 {
        ValidationResult::NotApplicable
    } else {
        let prev = verdict_of(fs, p, line, (n - 1) as nat);
        if prev !is NotApplicable {
            prev
        } else if is_checked(fs[n - 1], p, line) {
            if p == "unprotected-initialize"@ { initializer_verdict(fs[n - 1]) } else { access_verdict(fs[n - 1]) }
        } else {
            prev
        }
    }
}

fn modifiers_have(mods: &Vec<String>, names: &Vec<&str>) -> (r: bool)
    ensures
        r == some_modifier_has(strs(mods@), names@.map_values(|s: &str| s@)),
{
    let ghost nv = names@.map_values(|s: &str| s@);
    let mut i: usize = 0;
    while i < mods.len()
        invariant
            i <= mods.len(),
            nv == names@.map_values(|s: &str| s@),
            forall|a: int, b: int| 0 <= a < i && 0 <= b < nv.len() ==> !str_has(#[trigger] strs(mods@)[a], #[trigger] nv[b]),
        decreases mods.len() - i,
    {
        let mut j: usize = 0;
        while j < names.len()
            invariant
                i < mods.len(),
                j <= names.len(),
                nv == names@.map_values(|s: &str| s@),
                forall|a: int, b: int| 0 <= a < i && 0 <= b < nv.len() ==> !str_has(#[trigger] strs(mods@)[a], #[trigger] nv[b]),
                forall|b: int| 0 <= b < j ==> !str_has(strs(mods@)[i as int], #[trigger] nv[b]),
            decreases names.len() - j,
        {
            assert(strs(mods@)[i as int] == mods@[i as int]@);
            if contains(mods[i].as_str(), names[j]) {
                assert(str_has(strs(mods@)[i as int], nv[j as int]));
                return true;
            }
            j = j + 1;
        }
        i = i + 1;
    }
    false
}

/// The access-control check of a function: protected by an access modifier,
/// else by an inline check among its first statements, else vulnerable.
pub fn check_access_control(f: &FunctionFacts) -> (r: ValidationResult)
    ensures
        r == access_verdict(*f),
{
    let names = vec![
        "onlyOwner", "onlyAdmin", "onlyMinter", "onlyBurner", "onlyRole", "onlyGovernance", "onlyController",
        "onlyManager", "hasRole", "authorized", "onlyAuthorized",
    ];
    assert(names@.map_values(|s: &str| s@) =~= access_modifier_names());
    if modifiers_have(&f.modifiers, &names) {
        return ValidationResult::Protected("Has access control modifier");
    }
    let mut k: usize = 0;
    while k < f.leading_checks.len()
        invariant
            k <= f.leading_checks.len(),
            !some_modifier_has(strs(f.modifiers@), access_modifier_names()),
            forall|q: int| 0 <= q < k ==> !f.leading_checks@[q],
        decreases f.leading_checks.len() - k,
    {
        if f.leading_checks[k] {
            return ValidationResult::Protected("Has inline access check");
        }
        k = k + 1;
    }
    ValidationResult::Vulnerable
}

/// The initializer check of a function: protected by an `initializer` or
/// `reinitializer` modifier, else vulnerable.
pub fn check_initialize_protection(f: &FunctionFacts) -> (r: ValidationResult)
    ensures
        r == initializer_verdict(*f),
{
    let names = vec!["initializer", "reinitializer"];
    assert(names@.map_values(|s: &str| s@) =~= seq!["initializer"@, "reinitializer"@]);
    if modifiers_have(&f.modifiers, &names) {
        ValidationResult::Protected("Has initializer modifier")
    } else {
        ValidationResult::Vulnerable
    }
}

fn fits(pattern_id: &str, name: &str) -> (r: Option<bool>)
    ensures
        r == name_fits(pattern_id@, name@),
{
    if str_eq(pattern_id, "unprotected-initialize") {
        Some(contains(name, "initialize"))
    } else if str_eq(pattern_id, "public-withdraw-no-auth") {
        Some(contains(name, "withdraw"))
    } else if str_eq(pattern_id, "external-mint-no-modifier") {
        Some(str_eq(name, "mint"))
    } else if str_eq(pattern_id, "external-burn-no-modifier") {
        Some(str_eq(name, "burn"))
    } else {
        None
    }
}

/// Checks a finding of pattern `pattern_id` at `target_line` against the
/// functions of the parsed contract, in order: the first function that spans
/// the line and whose name fits the pattern decides.
pub fn validate_functions(functions: &Vec<FunctionFacts>, pattern_id: &str, target_line: usize) -> (r: ValidationResult)
    ensures
        r == verdict_of(functions@, pattern_id@, target_line, functions.len() as nat),
{
    let mut i: usize = 0;
    while i < functions.len()
        invariant
            i <= functions.len(),
            verdict_of(functions@, pattern_id@, target_line, i as nat) is NotApplicable,
        decreases functions.len() - i,
    {
        let f = &functions[i];
        if f.start <= target_line && f.end >= target_line {
            match &f.name {
                Some(n) => {
                    if fits(pattern_id, n.as_str()) == Some(true) {
                        let is_init = str_eq(pattern_id, "unprotected-initialize");
                        let v = if is_init { check_initialize_protection(f) } else { check_access_control(f) };
                        proof {
                            lemma_verdict_stays(functions@, pattern_id@, target_line, (i + 1) as nat, functions.len() as nat);
                        }
                        return v;
                    }
                },
                None => {},
            }
        }
        i = i + 1;
    }
    ValidationResult::NotApplicable
}

proof fn lemma_verdict_stays(fs: Seq<FunctionFacts>, p: Seq<char>, line: usize, a: nat, b: nat)
    requires
        a <= b,
        verdict_of(fs, p, line, a) !is NotApplicable,
    ensures
        verdict_of(fs, p, line, b) == verdict_of(fs, p, line, a),
    decreases b - a,
{
    if a < b {
        lemma_verdict_stays(fs, p, line, a, (b - 1) as nat);
    }
}

#[verifier::external_type_specification]
#[verifier::external_body]
pub struct ExFunctionDefinition(solang_parser::pt::FunctionDefinition);

#[verifier::external_type_specification]
#[verifier::external_body]
pub struct ExStatement(solang_parser::pt::Statement);

#[verifier::external_type_specification]
#[verifier::external_body]
pub struct ExExpression(solang_parser::pt::Expression);

/// The kind of an expression, as far as the checks tell kinds apart.
#[derive(Debug, Clone, Copy, PartialEq, Eq, Structural)]
pub enum ExprKind {
    Equal,
    NotEqual,
    More,
    Less,
    FunctionCall,
    Other,
}

/// The kind of a statement, as far as the checks tell kinds apart.
#[derive(Debug, Clone, Copy, PartialEq, Eq, Structural)]
pub enum StmtKind {
    If,
    Expression,
    Revert,
    Other,
}

/// A statement by kind: for an `if`, the kind of its condition and of its
/// branch; for an expression statement, the kind of its expression.
#[derive(Debug, Clone, Copy, PartialEq, Eq, Structural)]
pub struct StatementTag {
    pub kind: StmtKind,
    pub expr: Option<ExprKind>,
    pub branch: Option<StmtKind>,
}

/// A function definition as the parser gives it, in plain values: its name,
/// the bytes it spans, for each attribute the identifiers of the modifier
/// (or base) it names, if it names one, and the statements of its body when
/// the body is a block.
#[derive(Debug, Clone)]
pub struct RawFunction {
    pub name: Option<String>,
    pub start: usize,
    pub end: usize,
    pub modifiers: Vec<Option<Vec<String>>>,
    pub body: Option<Vec<StatementTag>>,
}

/// A raw function definition as plain values.
#[verifier::ext_equal]
pub struct RawFunctionView {
    pub name: Option<Seq<char>>,
    pub start: usize,
    pub end: usize,
    pub modifiers: Seq<Option<Seq<Seq<char>>>>,
    pub body: Option<Seq<StatementTag>>,
}

impl View for RawFunction {
    type V = RawFunctionView;

    open spec fn view(&self) -> RawFunctionView {
        RawFunctionView {
            name: match self.name {
                Some(n) => Some(n@),
                None => None,
            },
            start: self.start,
            end: self.end,
            modifiers: self.modifiers@.map_values(|o: Option<Vec<String>>| match o {
                Some(p) => Some(strs(p@)),
                None => None,
            }),
            body: match self.body {
                Some(b) => Some(b@),
                None => None,
            },
        }
    }
}

/// A part of a contract, as plain values: a function definition, or `None`
/// for any other part.
pub open spec fn part_view(p: Option<RawFunction>) -> Option<RawFunctionView> {
    match p {
        Some(f) => Some(f@),
        None => None,
    }
}

/// A top-level part of a source, as plain values: the parts of a contract
/// definition, or `None` for any other top-level part.
pub open spec fn unit_view(u: Option<Vec<Option<RawFunction>>>) -> Option<Seq<Option<RawFunctionView>>> {
    match u {
        Some(ps) => Some(ps@.map_values(|p: Option<RawFunction>| part_view(p))),
        None => None,
    }
}

/// The top-level parts of a source as plain values.
pub open spec fn units_view(v: Seq<Option<Vec<Option<RawFunction>>>>) -> Seq<Option<Seq<Option<RawFunctionView>>>> {
    v.map_values(|u: Option<Vec<Option<RawFunction>>>| unit_view(u))
}

/// What `solang_parser::parse` gives for `source`: its top-level parts, in
/// order, each contract definition with its parts; `None` when it does not
/// parse.
pub uninterp spec fn solidity_units(source: Seq<char>) -> Option<Seq<Option<Seq<Option<RawFunctionView>>>>>;

/// The function definitions among the parts of a contract, in order.
pub open spec fn contract_functions(ps: Seq<Option<RawFunctionView>>) -> Seq<RawFunctionView>
    decreases ps.len(),
{
    if ps.len() == 0 {
        Seq::empty()
    } else {
        contract_functions(ps.drop_last()) + match ps.last() {
            Some(f) => seq![f],
            None => Seq::empty(),
        }
    }
}

/// The function definitions of the contracts among top-level parts, in order.
pub open spec fn functions_of(us: Seq<Option<Seq<Option<RawFunctionView>>>>) -> Seq<RawFunctionView>
    decreases us.len(),
{
    if us.len() == 0 {
        Seq::empty()
    } else {
        functions_of(us.drop_last()) + match us.last() {
            Some(ps) => contract_functions(ps),
            None => Seq::empty(),
        }
    }
}

/// The function definitions of the contracts of `source`, in order; `None`
/// when it does not parse.
pub open spec fn solidity_functions(source: Seq<char>) -> Option<Seq<RawFunctionView>> {
    match solidity_units(source) {
        Some(us) => Some(functions_of(us)),
        None => None,
    }
}

/// `solang_parser::parse`, then each top-level part: a contract definition
/// with each of its parts (a function definition read as a `RawFunction` by
/// `raw_function`, any other part as `None`), any other part as `None`. Its
/// outcome is named by `solidity_units`; only that is stated.
#[verifier::external_body]
fn parse_units(source: &str) -> (r: Option<Vec<Option<Vec<Option<RawFunction>>>>>)
    ensures
        solidity_units(source@) == match r {
            Some(v) => Some(units_view(v@)),
            None => None,
        },
{
    let (unit, _) = solang_parser::parse(source, 0).ok()?;
    Some(unit.0.iter().map(|part| match part {
        SourceUnitPart::ContractDefinition(c) => Some(c.parts.iter().map(|p| match p {
            ContractPart::FunctionDefinition(f) => Some(raw_function(f)),
            _ => None,
        }).collect()),
        _ => None,
    }).collect())
}

/// Reads a `solang_parser` function definition as plain values: its name,
/// `loc.start()` and `loc.end()`, the identifiers of each
/// `FunctionAttribute::BaseOrModifier`, and the statements of a block body
/// (`statement_tag`). Used only by `parse_units`, whose result is named.
#[verifier::external_body]
fn raw_function(f: &FunctionDefinition) -> RawFunction {
    RawFunction {
        name: f.name.as_ref().map(|n| n.name.clone()),
        start: f.loc.start(),
        end: f.loc.end(),
        modifiers: f.attributes.iter().map(|a| match a {
            FunctionAttribute::BaseOrModifier(_, b) => Some(b.name.identifiers.iter().map(|i| i.name.clone()).collect()),
            _ => None,
        }).collect(),
        body: match &f.body {
            Some(Statement::Block { statements, .. }) => Some(statements.iter().map(statement_tag).collect()),
            _ => None,
        },
    }
}

/// Tells a `solang_parser` statement's variants apart (see `StatementTag`).
/// Used only through `raw_function`.
#[verifier::external_body]
fn statement_tag(s: &Statement) -> StatementTag {
    match s {
        Statement::If(_, c, t, _) => StatementTag { kind: StmtKind::If, expr: Some(expr_kind(c)), branch: Some(statement_tag(t).kind) },
        Statement::Expression(_, e) => StatementTag { kind: StmtKind::Expression, expr: Some(expr_kind(e)), branch: None },
        Statement::Revert(..) => StatementTag { kind: StmtKind::Revert, expr: None, branch: None },
        _ => StatementTag { kind: StmtKind::Other, expr: None, branch: None },
    }
}

/// Tells a `solang_parser` expression's variants apart (see `ExprKind`).
/// Used only through `statement_tag`.
#[verifier::external_body]
fn expr_kind(e: &Expression) -> ExprKind {
    match e {
        Expression::Equal(..) => ExprKind::Equal,
        Expression::NotEqual(..) => ExprKind::NotEqual,
        Expression::More(..) => ExprKind::More,
        Expression::Less(..) => ExprKind::Less,
        Expression::FunctionCall(..) => ExprKind::FunctionCall,
        _ => ExprKind::Other,
    }
}

/// The modifier names of a function: for each attribute naming a modifier,
/// its identifiers joined with dots.
pub open spec fn modifier_names(ms: Seq<Option<Seq<Seq<char>>>>) -> Seq<Seq<char>>
    decreases ms.len(),
{
    if ms.len() == 0 {
        Seq::empty()
    } else {
        modifier_names(ms.drop_last()) + match ms.last() {
            Some(p) => seq![joined(p, "."@)],
            None => Seq::empty(),
        }
    }
}

/// A statement checks the caller inline: an `if` on a comparison whose
/// branch reverts or is an expression, or a call statement.
pub open spec fn checks_caller(t: StatementTag) -> bool {
    match t.kind {
        StmtKind::If => (t.expr == Some(ExprKind::Equal) || t.expr == Some(ExprKind::NotEqual) || t.expr == Some(ExprKind::More)
            || t.expr == Some(ExprKind::Less)) && (t.branch == Some(StmtKind::Revert) || t.branch == Some(StmtKind::Expression)),
        StmtKind::Expression => t.expr == Some(ExprKind::FunctionCall),
        _ => false,
    }
}

/// For each of the first (at most five) statements of a block body, whether
/// it checks the caller inline; nothing for another body.
pub open spec fn lead_checks(body: Option<Seq<StatementTag>>) -> Seq<bool> {
    match body {
        Some(ss) => ss.take(if ss.len() < 5 { ss.len() as int } else { 5 }).map_values(|t: StatementTag| checks_caller(t)),
        None => Seq::empty(),
    }
}

/// The facts `f` are those of the parsed function `r`.
pub open spec fn facts_fit(f: FunctionFacts, r: RawFunctionView) -> bool {
    &&& (match f.name {
        Some(n) => r.name == Some(n@),
        None => r.name is None,
    })
    &&& f.start == r.start
    &&& f.end == r.end
    &&& strs(f.modifiers@) == modifier_names(r.modifiers)
    &&& f.leading_checks@ == lead_checks(r.body)
}

fn checks_caller_tag(t: StatementTag) -> (r: bool)
    ensures
        r == checks_caller(t),
{
    match t.kind {
        StmtKind::If => {
            let cmp = match t.expr {
                Some(ExprKind::Equal) => true,
                Some(ExprKind::NotEqual) => true,
                Some(ExprKind::More) => true,
                Some(ExprKind::Less) => true,
                _ => false,
            };
            let stops = match t.branch {
                Some(StmtKind::Revert) => true,
                Some(StmtKind::Expression) => true,
                _ => false,
            };
            cmp && stops
        },
        StmtKind::Expression => match t.expr {
            Some(ExprKind::FunctionCall) => true,
            _ => false,
        },
        _ => false,
    }
}

/// The facts of a parsed function.
fn facts_from(r: &RawFunction) -> (f: FunctionFacts)
    ensures
        facts_fit(f, r@),
{
    let name = match &r.name {
        Some(n) => Some(owned(n.as_str())),
        None => None,
    };
    let ghost mv = r@.modifiers;
    let mut modifiers: Vec<String> = Vec::new();
    let mut i: usize = 0;
    while i < r.modifiers.len()
        invariant
            i <= r.modifiers.len(),
            mv == r@.modifiers,
            strs(modifiers@) == modifier_names(mv.subrange(0, i as int)),
        decreases r.modifiers.len() - i,
    {
        assert(mv.subrange(0, i + 1).drop_last() =~= mv.subrange(0, i as int));
        match &r.modifiers[i] {
            Some(path) => {
                let mut m = String::new();
                proof {
                    assert(m@ == Seq::<char>::empty());
                }
                push_joined(&mut m, path, ".");
                proof {
                    reveal_strlit(".");
                    assert(m@ =~= joined(strs(path@), "."@));
                }
                let ghost before = strs(modifiers@);
                modifiers.push(m);
                assert(strs(modifiers@) =~= before.push(m@));
            },
            None => {},
        }
        i = i + 1;
    }
    assert(mv.subrange(0, r.modifiers.len() as int) =~= mv);
    let mut leading_checks: Vec<bool> = Vec::new();
    match &r.body {
        Some(stmts) => {
            let n = if stmts.len() < 5 { stmts.len() } else { 5 };
            let mut k: usize = 0;
            while k < n
                invariant
                    k <= n <= stmts.len(),
                    n == if stmts.len() < 5 { stmts.len() } else { 5 },
                    leading_checks@ == stmts@.take(k as int).map_values(|t: StatementTag| checks_caller(t)),
                decreases n - k,
            {
                let c = checks_caller_tag(stmts[k]);
                let ghost before = leading_checks@;
                leading_checks.push(c);
                assert(stmts@.take(k + 1).map_values(|t: StatementTag| checks_caller(t)) =~= before.push(c));
                k = k + 1;
            }
        },
        None => {},
    }
    FunctionFacts { name, start: r.start, end: r.end, modifiers, leading_checks }
}

/// The facts of each function of each contract of `source`, in order; `None`
/// when it does not parse.
pub fn parse_function_facts(source: &str) -> (r: Option<Vec<FunctionFacts>>)
    ensures
        match solidity_functions(source@) {
            Some(rs) => r matches Some(fs) && fs.len() == rs.len() && forall|i: int| 0 <= i < rs.len() ==> #[trigger] facts_fit(fs@[i], rs[i]),
            None => r is None,
        },
{
    let units = match parse_units(source) {
        Some(units) => units,
        None => return None,
    };
    let ghost uv = units_view(units@);
    let mut out: Vec<FunctionFacts> = Vec::new();
    let mut i: usize = 0;
    while i < units.len()
        invariant
            i <= units.len(),
            uv == units_view(units@),
            out.len() == functions_of(uv.take(i as int)).len(),
            forall|q: int| 0 <= q < out.len() ==> #[trigger] facts_fit(out@[q], functions_of(uv.take(i as int))[q]),
        decreases units.len() - i,
    {
        let ghost base = functions_of(uv.take(i as int));
        assert(uv.take(i + 1).drop_last() =~= uv.take(i as int));
        assert(uv.take(i + 1).last() == unit_view(units@[i as int]));
        match &units[i] {
            Some(parts) => {
                let ghost pv = parts@.map_values(|p: Option<RawFunction>| part_view(p));
                let mut j: usize = 0;
                while j < parts.len()
                    invariant
                        j <= parts.len(),
                        pv == parts@.map_values(|p: Option<RawFunction>| part_view(p)),
                        out.len() == base.len() + contract_functions(pv.take(j as int)).len(),
                        forall|q: int| 0 <= q < out.len() ==> #[trigger] facts_fit(out@[q], (base + contract_functions(pv.take(j as int)))[q]),
                    decreases parts.len() - j,
                {
                    let ghost done = base + contract_functions(pv.take(j as int));
                    assert(pv.take(j + 1).drop_last() =~= pv.take(j as int));
                    assert(pv.take(j + 1).last() == part_view(parts@[j as int]));
                    match &parts[j] {
                        Some(f) => {
                            let ghost before = out@;
                            out.push(facts_from(f));
                            assert(base + contract_functions(pv.take(j + 1)) =~= done.push(f@));
                            assert forall|q: int| 0 <= q < out.len() implies #[trigger] facts_fit(out@[q], (base + contract_functions(pv.take(j + 1)))[q]) by {
                                if q < before.len() {
                                    assert(out@[q] == before[q]);
                                }
                            }
                        },
                        None => {
                            assert(base + contract_functions(pv.take(j + 1)) =~= done);
                        },
                    }
                    j = j + 1;
                }
                assert(pv.take(pv.len() as int) =~= pv);
                assert(functions_of(uv.take(i + 1)) =~= base + contract_functions(pv));
            },
            None => {
                assert(functions_of(uv.take(i + 1)) =~= base);
            },
        }
        i = i + 1;
    }
    assert(uv.take(uv.len() as int) =~= uv);
    Some(out)
}

/// The syntax-tree check may answer `v` for a finding of pattern `p` at
/// `line` in `source`: a parse error when the source does not parse, else
/// the verdict over the facts of its functions.
pub open spec fn ast_answer(source: Seq<char>, p: Seq<char>, line: usize, v: ValidationResult) -> bool {
    match solidity_functions(source) {
        None => v == ValidationResult::ParseError,
        Some(rs) => exists|fs: Seq<FunctionFacts>|
            fs.len() == rs.len() && (forall|i: int| 0 <= i < rs.len() ==> #[trigger] facts_fit(fs[i], rs[i]))
                && v == verdict_of(fs, p, line, fs.len()),
    }
}

/// The syntax-tree check of a finding of pattern `pattern_id` at `line` in
/// `source`: a parse error when the source does not parse, else the verdict
/// of `validate_functions` over its functions.
pub fn validate_source(source: &str, pattern_id: &str, line: usize) -> (r: ValidationResult)
    ensures
        ast_answer(source@, pattern_id@, line, r),
{
    match parse_function_facts(source) {
        Some(facts) => {
            let r = validate_functions(&facts, pattern_id, line);
            assert(facts@.len() == facts.len());
            r
        },
        None => ValidationResult::ParseError,
    }
}

} // verus!
