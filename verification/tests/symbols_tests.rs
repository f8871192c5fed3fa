use scpf::symbols::{classify_modifiers, ModifierType, Mutability, SymbolCollector, Visibility};
use scpf::syntax_tree::parse_solidity;

const SOURCE: &str = "contract C {
    uint256 public total;
    address owner;
    modifier onlyOwner() { require(msg.sender == owner); _; }
    modifier nonReentrant() { _; }
    modifier checked() { revert(\"x\"); _; }
    modifier plain() { _; }
    function withdraw(uint256 a) external nonReentrant onlyOwner { total = a; }
    function peek() public view returns (uint256) { return total; }
    function f() internal pure {}
    function withdraw(uint256 a, uint256 b) external {}
}
";

#[test]
fn collector_reads_functions_modifiers_and_variables() {
    let nodes = parse_solidity(SOURCE).unwrap();
    let ctx = SymbolCollector::new(&nodes).collect();
    let names: Vec<&str> = ctx.functions.iter().map(|e| e.0.as_str()).collect();
    assert_eq!(names, vec!["withdraw", "peek", "f"]);
    let withdraw = &ctx.functions[0].1;
    assert_eq!(withdraw.visibility, Visibility::External);
    assert_eq!(withdraw.mutability, Mutability::NonPayable);
    assert!(withdraw.modifiers.is_empty());
    assert_eq!(withdraw.start_line, 11);
    let peek = &ctx.functions[1].1;
    assert_eq!(peek.visibility, Visibility::Public);
    assert_eq!(peek.mutability, Mutability::View);
    assert_eq!((peek.start_line, peek.end_line), (9, 9));
    let f = &ctx.functions[2].1;
    assert_eq!((f.visibility, f.mutability), (Visibility::Internal, Mutability::Pure));
    let mods: Vec<(&str, bool)> = ctx.modifiers.iter().map(|e| (e.0.as_str(), e.1.has_state_check)).collect();
    assert_eq!(mods, vec![("onlyOwner", true), ("nonReentrant", false), ("checked", true), ("plain", false)]);
    assert!(ctx.modifiers.iter().all(|e| e.1.modifier_type == ModifierType::Unknown));
    let vars: Vec<(&str, &str)> = ctx.state_variables.iter().map(|e| (e.0.as_str(), e.1.var_type.as_str())).collect();
    assert_eq!(vars, vec![("total", "uint256"), ("owner", "address")]);
}

#[test]
fn modifiers_invoked_by_a_function_are_listed_in_order() {
    let source = "contract C {\n    function withdraw(uint256 a) external nonReentrant onlyOwner { }\n}\n";
    let nodes = parse_solidity(source).unwrap();
    let ctx = SymbolCollector::new(&nodes).collect();
    assert_eq!(ctx.functions.len(), 1);
    assert_eq!(ctx.functions[0].1.modifiers, vec!["nonReentrant".to_string(), "onlyOwner".to_string()]);
    assert_eq!((ctx.functions[0].1.start_line, ctx.functions[0].1.end_line), (2, 2));
}

#[test]
fn modifiers_are_classified_by_name_then_by_body() {
    let nodes = parse_solidity(SOURCE).unwrap();
    let mut ctx = SymbolCollector::new(&nodes).collect();
    classify_modifiers(&mut ctx);
    let types: Vec<ModifierType> = ctx.modifiers.iter().map(|e| e.1.modifier_type).collect();
    assert_eq!(
        types,
        vec![ModifierType::AccessControl, ModifierType::ReentrancyGuard, ModifierType::Custom, ModifierType::Unknown]
    );
    assert_eq!(ctx.functions.len(), 3);
    assert_eq!(ctx.state_variables.len(), 2);
}
