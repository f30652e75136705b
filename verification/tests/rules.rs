use registry_sweep::rules::{compile_rules, with_rule, CompiledRule, ConfigurationError};

fn patterns_from(items: &[&str]) -> Vec<String> {
    items.iter().map(|s| s.to_string()).collect()
}

#[test]
fn valid_patterns_compile_in_order() {
    let rules = compile_rules(&patterns_from(&["^dev-.*", "^v[0-9]+"])).unwrap();
    assert_eq!(rules.len(), 2);
    assert_eq!(rules[0].pattern(), "^dev-.*");
    assert_eq!(rules[1].pattern(), "^v[0-9]+");
}

#[test]
fn no_patterns_compile_to_no_rules() {
    let rules = compile_rules(&Vec::new()).unwrap();
    assert!(rules.is_empty());
}

#[test]
fn first_invalid_pattern_is_reported() {
    let failed = compile_rules(&patterns_from(&["ok", "(", "[", "fine"]));
    match failed {
        Ok(_) => panic!("an invalid pattern compiled"),
        Err(error) => {
            assert_eq!(error.pattern, "(");
            assert!(!error.detail.is_empty());
            assert!(error.message().starts_with("Invalid tag regex: "));
            assert_eq!(error.message(), format!("Invalid tag regex: {}", error.detail));
        }
    }
}

#[test]
fn compile_tells_valid_from_invalid() {
    assert!(CompiledRule::compile("a+b").is_ok());
    match CompiledRule::compile("a(b") {
        Ok(_) => panic!("an invalid pattern compiled"),
        Err(error) => assert_eq!(error.pattern, "a(b"),
    }
}

#[test]
fn accepts_matches_anywhere_unless_anchored() {
    let free = CompiledRule::compile("dev").unwrap();
    assert!(free.accepts("dev"));
    assert!(free.accepts("my-dev-1"));
    assert!(!free.accepts("prod"));
    let anchored = CompiledRule::compile("^dev-[0-9]+$").unwrap();
    assert!(anchored.accepts("dev-12"));
    assert!(!anchored.accepts("my-dev-12"));
    assert!(!anchored.accepts("dev-12a"));
    let empty = CompiledRule::compile("").unwrap();
    assert!(empty.accepts(""));
    assert!(empty.accepts("anything"));
}

#[test]
fn with_rule_appends_or_fails() {
    let rules = compile_rules(&patterns_from(&["a"])).unwrap();
    let longer = with_rule(rules, CompiledRule::compile("b")).unwrap();
    assert_eq!(longer.len(), 2);
    assert_eq!(longer[0].pattern(), "a");
    assert_eq!(longer[1].pattern(), "b");
    let error = ConfigurationError { pattern: "(".to_string(), detail: "unclosed".to_string() };
    match with_rule(longer, Err(error)) {
        Ok(_) => panic!("an error was passed over"),
        Err(same) => {
            assert_eq!(same.pattern, "(");
            assert_eq!(same.detail, "unclosed");
            assert_eq!(same.message(), "Invalid tag regex: unclosed");
        }
    }
}
