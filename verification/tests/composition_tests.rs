use scpf::composition::{create_reentrancy_composition, CompositionRule, TemplateComposer};

fn hits(entries: &[(&str, Vec<usize>)]) -> Vec<(String, Vec<usize>)> {
    entries.iter().map(|(k, v)| (k.to_string(), v.clone())).collect()
}

#[test]
fn test_all_of_rule() {
    let composer = TemplateComposer::new();
    let rule = CompositionRule::AllOf(vec!["t1".to_string(), "t2".to_string()]);

    let mut matches = hits(&[("t1", vec![10]), ("t2", vec![20])]);

    assert!(composer.evaluate_rule(&rule, &matches));

    matches.retain(|(k, _)| k != "t2");
    assert!(!composer.evaluate_rule(&rule, &matches));
}

#[test]
fn test_sequential_rule() {
    let composer = TemplateComposer::new();
    let rule = CompositionRule::Sequential {
        templates: vec!["t1".to_string(), "t2".to_string()],
        max_distance: 10,
    };

    let mut matches = hits(&[("t1", vec![10]), ("t2", vec![15])]);

    assert!(composer.evaluate_rule(&rule, &matches));

    matches[1].1 = vec![25];
    assert!(!composer.evaluate_rule(&rule, &matches));
}

#[test]
fn other_rules() {
    let composer = TemplateComposer::new();
    let matches = hits(&[("a", vec![1]), ("b", vec![]), ("c", vec![7])]);
    let any = CompositionRule::AnyOf(vec!["b".to_string(), "c".to_string()]);
    assert!(composer.evaluate_rule(&any, &matches));
    let exactly = CompositionRule::ExactlyN { count: 2, templates: vec!["a".to_string(), "b".to_string(), "c".to_string()] };
    assert!(composer.evaluate_rule(&exactly, &matches));
    let and_not = CompositionRule::AndNot { required: "a".to_string(), excluded: "b".to_string() };
    assert!(composer.evaluate_rule(&and_not, &matches));
    let and_not2 = CompositionRule::AndNot { required: "a".to_string(), excluded: "c".to_string() };
    assert!(!composer.evaluate_rule(&and_not2, &matches));
}

#[test]
fn reentrancy_composition_needs_call_then_write() {
    let composer = TemplateComposer::new();
    let c = create_reentrancy_composition();
    assert!(!c.base_templates.is_empty());
    let none: Vec<(String, Vec<usize>)> = Vec::new();
    assert!(!composer.evaluate_composition(&c, &none));
}
