use polar_core::compat::Compatibility;
use polar_core::counter::Counter;
use polar_core::error::RuntimeError;
use polar_core::kb::KnowledgeBase;
use polar_core::kb::Scope;
use polar_core::rules::GenericRule;
use polar_core::rules::Parameter;
use polar_core::rules::Rule;
use polar_core::sources::Source;
use polar_core::sources::Sources;
use polar_core::terms::Dictionary;
use polar_core::terms::InstanceLiteral;
use polar_core::terms::Path;
use polar_core::terms::Pattern;
use polar_core::terms::Symbol;
use polar_core::terms::Term;
use polar_core::terms::Value;
use std::sync::Arc;

fn sym(name: &str) -> Symbol {
    Symbol::new(name)
}

fn var(name: &str) -> Term {
    Term::new(Value::Variable(sym(name)))
}

fn num(i: i64) -> Term {
    Term::new(Value::Integer(i))
}

fn string(text: &str) -> Term {
    Term::new(Value::String(text.to_string()))
}

fn instance(tag: &str) -> Term {
    Term::new(Value::Pattern(Pattern::Instance(InstanceLiteral {
        tag: sym(tag),
        fields: Dictionary::new(),
    })))
}

fn param(term: Term) -> Parameter {
    Parameter { parameter: term, specializer: None }
}

fn specialized(term: Term, specializer: Term) -> Parameter {
    Parameter { parameter: term, specializer: Some(specializer) }
}

fn rule(name: &str, params: Vec<Parameter>) -> Rule {
    Rule { name: sym(name), params, body: Term::new(Value::Boolean(true)) }
}

fn clause_count(kb: &KnowledgeBase, name: &str, scope: &str) -> usize {
    match kb.lookup_rule(Path::with_name(sym(name)), &sym(scope)) {
        Some((rules, _)) => rules.rules.len(),
        None => 0,
    }
}

#[test]
fn test_template_compatibility() {
    // Rules with variables allow any values.
    let template = rule("f", vec![param(var("foo"))]);
    let rule1 = rule("f", vec![param(var("bar"))]);
    let rule2 = rule("f", vec![param(var("foo"))]);
    let rule3 = rule("f", vec![param(num(1))]);
    let rule4 = rule("f", vec![specialized(var("bar"), instance("Baz"))]);

    assert!(KnowledgeBase::check_rule_compatibility(&rule1, &template).unwrap());
    assert!(KnowledgeBase::check_rule_compatibility(&rule2, &template).unwrap());
    assert!(KnowledgeBase::check_rule_compatibility(&rule3, &template).unwrap());
    assert!(KnowledgeBase::check_rule_compatibility(&rule4, &template).unwrap());

    let template_with_value = rule("g", vec![param(num(1))]);
    let rule_g2 = rule("g", vec![param(num(2))]);
    assert!(
        KnowledgeBase::check_rule_compatibility(&template_with_value, &template_with_value)
            .unwrap()
    );
    assert!(!KnowledgeBase::check_rule_compatibility(&rule_g2, &template_with_value).unwrap());

    let template_spec = rule(
        "f",
        vec![
            specialized(var("foo"), instance("Bar")),
            specialized(var("baz"), instance("Baz")),
        ],
    );
    let rule1 = rule(
        "f",
        vec![
            specialized(var("foo"), instance("Nope")),
            specialized(var("baz"), instance("Baz")),
        ],
    );
    let rule2 = rule(
        "f",
        vec![
            specialized(var("foo"), instance("Bar")),
            specialized(var("baz"), instance("Nope")),
        ],
    );

    assert!(KnowledgeBase::check_rule_compatibility(&template_spec, &template_spec).unwrap());
    assert!(!KnowledgeBase::check_rule_compatibility(&rule1, &template_spec).unwrap());
    assert!(!KnowledgeBase::check_rule_compatibility(&rule2, &template_spec).unwrap());
}

fn allow_role(actor: Parameter) -> Rule {
    rule(
        "allow_role",
        vec![
            actor,
            specialized(var("action"), instance("String")),
            specialized(var("resource"), instance("Repository")),
        ],
    )
}

#[test]
fn test_rule_templates() {
    let mut kb = KnowledgeBase::new();

    let template = allow_role(specialized(var("actor"), instance("User")));

    kb.add_rule_template(template, sym("custom_scope"));
    // (actor: User, action: String, resource: Repository)
    let rule = allow_role(specialized(var("actor"), instance("User")));
    assert!(kb.add_rule(rule, sym("custom_scope")).is_ok());

    let bad_rule = allow_role(param(var("actor")));

    assert!(kb.add_rule(bad_rule, sym("custom_scope")).is_err());
    let bad_rule = allow_role(specialized(var("actor"), instance("EvilUser")));
    assert!(kb.add_rule(bad_rule, sym("custom_scope")).is_err());
}

#[test]
fn new_knowledge_base_has_an_empty_default_scope() {
    let kb = KnowledgeBase::new();
    let default = kb.get_scope(&sym("default")).expect("the default scope");
    assert_eq!(default.name(), &sym("default"));
    assert!(default.lookup_constant(&sym("x")).is_none());
    assert!(default.lookup_rule(&sym("f")).is_none());
    assert!(kb.get_scope(&sym("other")).is_none());
    assert!(kb.sources.sources.is_empty());
    assert!(kb.inline_queries.is_empty());
}

#[test]
fn scope_new_is_empty_and_named() {
    let scope = Scope::new(sym("s"));
    assert_eq!(scope.name(), &sym("s"));
    assert!(scope.lookup_constant(&sym("x")).is_none());
    assert!(scope.lookup_rule(&sym("f")).is_none());
}

#[test]
fn unconstrained_template_accepts_any_rule() {
    let mut kb = KnowledgeBase::new();
    kb.add_rule_template(rule("f", vec![param(var("x"))]), sym("s"));

    assert!(kb.add_rule(rule("f", vec![param(num(1))]), sym("s")).is_ok());
    assert!(kb.add_rule(rule("f", vec![param(string("a"))]), sym("s")).is_ok());
    assert!(kb.add_rule(rule("f", vec![param(var("x"))]), sym("s")).is_ok());

    let (rules, owner) = kb.lookup_rule(Path::with_name(sym("f")), &sym("s")).unwrap();
    assert_eq!(owner, &sym("s"));
    assert_eq!(rules.name, sym("f"));
    assert_eq!(rules.rules.len(), 3);
    assert!(rules.rules[0].params[0].parameter == num(1));
    assert!(rules.rules[1].params[0].parameter == string("a"));
    assert!(rules.rules[2].params[0].parameter == var("x"));
}

fn allow(actor: Parameter) -> Rule {
    rule(
        "allow",
        vec![
            actor,
            specialized(var("action"), instance("String")),
            specialized(var("resource"), instance("Repository")),
        ],
    )
}

#[test]
fn instance_template_accepts_same_tags_only() {
    let mut kb = KnowledgeBase::new();
    kb.add_rule_template(allow(specialized(var("actor"), instance("User"))), sym("s"));

    assert!(kb.add_rule(allow(specialized(var("actor"), instance("User"))), sym("s")).is_ok());

    let other_tag = kb.add_rule(allow(specialized(var("actor"), instance("Admin"))), sym("s"));
    assert!(matches!(other_tag, Err(RuntimeError::TypeError { .. })));

    let bare = kb.add_rule(allow(param(var("actor"))), sym("s"));
    assert!(matches!(bare, Err(RuntimeError::TypeError { .. })));

    assert_eq!(clause_count(&kb, "allow", "s"), 1);
}

#[test]
fn rejected_rule_changes_nothing() {
    let mut kb = KnowledgeBase::new();
    kb.add_rule_template(rule("g", vec![param(num(1))]), sym("s"));
    assert!(kb.add_rule(rule("g", vec![param(num(1))]), sym("s")).is_ok());
    assert_eq!(clause_count(&kb, "g", "s"), 1);

    let rejected = kb.add_rule(rule("g", vec![param(num(2))]), sym("s"));
    match rejected {
        Err(RuntimeError::TypeError { msg, stack_trace }) => {
            assert_eq!(msg, "Rule not allowed in scope");
            assert!(stack_trace.is_none());
        }
        other => panic!("expected a type error, got {:?}", other),
    }
    assert_eq!(clause_count(&kb, "g", "s"), 1);
    assert!(kb.get_scope(&sym("s")).is_some());
}

#[test]
fn rejected_first_rule_leaves_no_clause_set() {
    let mut kb = KnowledgeBase::new();
    kb.add_rule_template(rule("g", vec![param(num(1))]), sym("s"));
    assert!(kb.add_rule(rule("g", vec![param(num(2))]), sym("s")).is_err());
    assert!(kb.lookup_rule(Path::with_name(sym("g")), &sym("s")).is_none());
}

#[test]
fn one_compatible_template_is_enough() {
    // The compatible template comes first, an incompatible one of the same
    // arity after it.
    let mut kb = KnowledgeBase::new();
    kb.add_rule_template(rule("f", vec![specialized(var("x"), instance("A"))]), sym("s"));
    kb.add_rule_template(rule("f", vec![specialized(var("x"), instance("B"))]), sym("s"));

    assert!(kb.add_rule(rule("f", vec![specialized(var("x"), instance("A"))]), sym("s")).is_ok());
    assert!(kb.add_rule(rule("f", vec![specialized(var("x"), instance("B"))]), sym("s")).is_ok());
    assert!(kb.add_rule(rule("f", vec![specialized(var("x"), instance("C"))]), sym("s")).is_err());
    assert_eq!(clause_count(&kb, "f", "s"), 2);
}

#[test]
fn second_template_of_a_name_is_kept() {
    let mut kb = KnowledgeBase::new();
    kb.add_rule_template(rule("f", vec![param(num(1))]), sym("s"));
    kb.add_rule_template(rule("f", vec![param(num(1)), param(num(2))]), sym("s"));

    // The template of arity two constrains rules of arity two.
    assert!(kb.add_rule(rule("f", vec![param(num(1)), param(num(3))]), sym("s")).is_err());
    assert!(kb.add_rule(rule("f", vec![param(num(1)), param(num(2))]), sym("s")).is_ok());
    // The template of arity one still constrains rules of arity one.
    assert!(kb.add_rule(rule("f", vec![param(num(2))]), sym("s")).is_err());
    assert!(kb.add_rule(rule("f", vec![param(num(1))]), sym("s")).is_ok());
}

#[test]
fn rule_without_template_of_its_arity_is_unconstrained() {
    let mut kb = KnowledgeBase::new();
    kb.add_rule_template(rule("f", vec![param(num(1))]), sym("s"));
    assert!(kb.add_rule(rule("f", vec![param(num(5)), param(num(6))]), sym("s")).is_ok());
    assert!(kb.add_rule(rule("f", vec![]), sym("s")).is_ok());
    assert_eq!(clause_count(&kb, "f", "s"), 2);
}

#[test]
fn rule_without_template_of_its_name_is_unconstrained() {
    let mut kb = KnowledgeBase::new();
    kb.add_rule_template(rule("f", vec![param(num(1))]), sym("s"));
    assert!(kb.add_rule(rule("g", vec![param(num(2))]), sym("s")).is_ok());
    assert_eq!(clause_count(&kb, "g", "s"), 1);
}

#[test]
fn templates_constrain_their_own_scope_only() {
    let mut kb = KnowledgeBase::new();
    kb.add_rule_template(rule("f", vec![param(num(1))]), sym("s"));
    assert!(kb.add_rule(rule("f", vec![param(num(2))]), sym("t")).is_ok());
    assert!(kb.add_rule(rule("f", vec![param(num(2))]), sym("s")).is_err());
}

#[test]
fn unsupported_comparison_is_an_error_of_its_own() {
    let mut kb = KnowledgeBase::new();
    kb.add_rule_template(rule("f", vec![specialized(var("x"), instance("A"))]), sym("s"));
    assert!(kb.add_rule(rule("f", vec![specialized(var("x"), instance("A"))]), sym("s")).is_ok());

    let result = kb.add_rule(rule("f", vec![param(num(1))]), sym("s"));
    match result {
        Err(RuntimeError::Unsupported { msg }) => {
            assert_eq!(msg, "matching a value against a specializer is not supported");
        }
        other => panic!("expected an unsupported comparison, got {:?}", other),
    }
    assert_eq!(clause_count(&kb, "f", "s"), 1);
}

#[test]
fn unsupported_comparison_wins_over_a_compatible_template() {
    let mut kb = KnowledgeBase::new();
    kb.add_rule_template(rule("f", vec![param(var("x"))]), sym("s"));
    kb.add_rule_template(rule("f", vec![specialized(var("x"), instance("A"))]), sym("s"));
    let result = kb.add_rule(rule("f", vec![param(num(1))]), sym("s"));
    assert!(matches!(result, Err(RuntimeError::Unsupported { .. })));
    assert_eq!(clause_count(&kb, "f", "s"), 0);
}

#[test]
fn add_rule_creates_the_scope() {
    let mut kb = KnowledgeBase::new();
    assert!(kb.get_scope(&sym("fresh")).is_none());
    assert!(kb.add_rule(rule("f", vec![param(num(1))]), sym("fresh")).is_ok());
    let scope = kb.get_scope(&sym("fresh")).unwrap();
    assert_eq!(scope.name(), &sym("fresh"));
    assert_eq!(clause_count(&kb, "f", "fresh"), 1);
    // The default scope is still there and has no such rule.
    assert!(kb.get_scope(&sym("default")).is_some());
    assert_eq!(clause_count(&kb, "f", "default"), 0);
}

#[test]
fn add_rule_template_creates_the_scope() {
    let mut kb = KnowledgeBase::new();
    kb.add_rule_template(rule("f", vec![param(num(1))]), sym("fresh"));
    assert!(kb.get_scope(&sym("fresh")).is_some());
    assert!(kb.lookup_rule(Path::with_name(sym("f")), &sym("fresh")).is_none());
}

#[test]
fn clauses_keep_their_order() {
    let mut kb = KnowledgeBase::new();
    for i in 0..4 {
        assert!(kb.add_rule(rule("f", vec![param(num(i))]), sym("default")).is_ok());
        assert!(kb.add_rule(rule("g", vec![param(num(10 * i))]), sym("default")).is_ok());
    }
    let (f, _) = kb.lookup_rule(Path::with_name(sym("f")), &sym("default")).unwrap();
    let (g, _) = kb.lookup_rule(Path::with_name(sym("g")), &sym("default")).unwrap();
    for i in 0..4 {
        assert!(f.rules[i].params[0].parameter == num(i as i64));
        assert!(g.rules[i].params[0].parameter == num(10 * i as i64));
    }
}

#[test]
fn constants_live_in_the_default_scope() {
    let mut kb = KnowledgeBase::new();
    assert!(!kb.is_constant(&sym("answer")));
    kb.constant(sym("answer"), num(42));
    assert!(kb.is_constant(&sym("answer")));
    assert!(!kb.is_constant(&sym("question")));

    let found = kb.lookup_constant(Path::with_name(sym("answer")), &sym("default"));
    assert!(found.unwrap() == &num(42));
}

#[test]
fn constant_overwrites() {
    let mut kb = KnowledgeBase::new();
    kb.constant(sym("answer"), num(41));
    kb.constant(sym("other"), string("x"));
    kb.constant(sym("answer"), num(42));
    let found = kb.lookup_constant(Path::with_name(sym("answer")), &sym("default"));
    assert!(found.unwrap() == &num(42));
    let other = kb.lookup_constant(Path::with_name(sym("other")), &sym("default"));
    assert!(other.unwrap() == &string("x"));
}

#[test]
fn lookup_constant_goes_by_scope() {
    let mut kb = KnowledgeBase::new();
    kb.constant(sym("answer"), num(42));
    kb.add_rule_template(rule("f", vec![]), sym("s"));

    // Alone, the name is looked up in the current scope.
    assert!(kb.lookup_constant(Path::with_name(sym("answer")), &sym("s")).is_none());
    // With a scope, it is looked up there.
    let path = Path::with_scope(sym("default"), sym("answer"));
    assert!(kb.lookup_constant(path, &sym("s")).unwrap() == &num(42));
    // A scope that is missing gives nothing, as current scope or as named one.
    let path = Path::with_scope(sym("default"), sym("answer"));
    assert!(kb.lookup_constant(path, &sym("missing")).is_none());
    let path = Path::with_scope(sym("missing"), sym("answer"));
    assert!(kb.lookup_constant(path, &sym("s")).is_none());
    // A name that is missing gives nothing.
    let path = Path::with_scope(sym("default"), sym("question"));
    assert!(kb.lookup_constant(path, &sym("s")).is_none());
}

#[test]
fn lookup_rule_goes_by_scope() {
    let mut kb = KnowledgeBase::new();
    assert!(kb.add_rule(rule("f", vec![param(num(1))]), sym("a")).is_ok());
    assert!(kb.add_rule(rule("f", vec![param(num(2))]), sym("b")).is_ok());
    assert!(kb.add_rule(rule("f", vec![param(num(3))]), sym("b")).is_ok());

    let (rules, owner) = kb.lookup_rule(Path::with_name(sym("f")), &sym("a")).unwrap();
    assert_eq!(owner, &sym("a"));
    assert_eq!(rules.rules.len(), 1);

    let (rules, owner) = kb.lookup_rule(Path::with_scope(sym("b"), sym("f")), &sym("a")).unwrap();
    assert_eq!(owner, &sym("b"));
    assert_eq!(rules.rules.len(), 2);

    assert!(kb.lookup_rule(Path::with_name(sym("g")), &sym("a")).is_none());
    assert!(kb.lookup_rule(Path::with_name(sym("f")), &sym("default")).is_none());
    assert!(kb.lookup_rule(Path::with_name(sym("f")), &sym("missing")).is_none());
    assert!(kb.lookup_rule(Path::with_scope(sym("missing"), sym("f")), &sym("a")).is_none());
    assert!(kb.lookup_rule(Path::with_scope(sym("b"), sym("f")), &sym("missing")).is_none());
}

#[test]
fn get_included_scope_finds_every_scope() {
    let mut kb = KnowledgeBase::new();
    kb.add_rule_template(rule("f", vec![]), sym("a"));
    kb.add_rule_template(rule("f", vec![]), sym("b"));
    let a = kb.get_scope(&sym("a")).unwrap();
    let b = kb.get_included_scope(a, &sym("b")).unwrap();
    assert_eq!(b.name(), &sym("b"));
    let itself = kb.get_included_scope(a, &sym("a")).unwrap();
    assert_eq!(itself.name(), &sym("a"));
    assert!(kb.get_included_scope(a, &sym("c")).is_none());
}

#[test]
fn clear_rules_keeps_constants_and_templates() {
    let mut kb = KnowledgeBase::new();
    kb.constant(sym("answer"), num(42));
    kb.add_rule_template(rule("g", vec![param(num(1))]), sym("s"));
    assert!(kb.add_rule(rule("g", vec![param(num(1))]), sym("s")).is_ok());
    assert!(kb.add_rule(rule("f", vec![param(num(7))]), sym("s")).is_ok());
    assert!(kb.add_rule(rule("f", vec![param(num(7))]), sym("default")).is_ok());
    kb.sources.add_source(Source { filename: None, src: "f(7);".to_string() });
    kb.inline_queries.push(var("q"));

    kb.clear_rules();

    assert!(kb.lookup_rule(Path::with_name(sym("g")), &sym("s")).is_none());
    assert!(kb.lookup_rule(Path::with_name(sym("f")), &sym("s")).is_none());
    assert!(kb.lookup_rule(Path::with_name(sym("f")), &sym("default")).is_none());
    assert!(kb.sources.sources.is_empty());
    assert!(kb.inline_queries.is_empty());

    // Scopes, constants and templates are as before.
    assert!(kb.get_scope(&sym("s")).is_some());
    assert!(kb.is_constant(&sym("answer")));
    let found = kb.lookup_constant(Path::with_name(sym("answer")), &sym("default"));
    assert!(found.unwrap() == &num(42));
    assert!(kb.add_rule(rule("g", vec![param(num(2))]), sym("s")).is_err());
    assert!(kb.add_rule(rule("g", vec![param(num(1))]), sym("s")).is_ok());
    assert_eq!(clause_count(&kb, "g", "s"), 1);
}

#[test]
fn new_id_counts_up_from_zero() {
    let kb = KnowledgeBase::new();
    assert_eq!(kb.new_id(), 0);
    assert_eq!(kb.new_id(), 1);
    assert_eq!(kb.new_id(), 2);
}

#[test]
fn id_counter_shares_the_sequence() {
    let kb = KnowledgeBase::new();
    let counter: Counter = kb.id_counter();
    assert_eq!(counter.next(), 0);
    assert_eq!(kb.new_id(), 1);
    assert_eq!(counter.next(), 2);
    assert_eq!(kb.id_counter().next(), 3);
    assert_eq!(kb.new_id(), 4);
}

#[test]
fn new_id_wraps_around_at_two_to_the_52() {
    let kb = KnowledgeBase::new();
    kb.id_counter().store((1u64 << 52) - 2);
    assert_eq!(kb.new_id(), (1u64 << 52) - 2);
    assert_eq!(kb.new_id(), (1u64 << 52) - 1);
    assert_eq!(kb.new_id(), 0);
    assert_eq!(kb.new_id(), 1);
}

#[test]
fn ids_and_gensyms_count_apart() {
    let kb = KnowledgeBase::new();
    assert_eq!(kb.new_id(), 0);
    assert_eq!(kb.new_id(), 1);
    assert_eq!(kb.gensym("_"), sym("_0"));
    assert_eq!(kb.new_id(), 2);
}

fn number_after(symbol: &Symbol, head: &str) -> u64 {
    let text = symbol.0.strip_prefix(head).expect("the head of the name");
    assert!(!text.is_empty());
    assert!(text.chars().all(|c| c.is_ascii_digit()));
    text.parse().unwrap()
}

#[test]
fn gensym_of_underscore_twice() {
    let kb = KnowledgeBase::new();
    let first = kb.gensym("_");
    let second = kb.gensym("_");
    assert_ne!(first, second);
    assert!(number_after(&second, "_") > number_after(&first, "_"));
    assert_eq!(first, sym("_0"));
    assert_eq!(second, sym("_1"));
}

#[test]
fn gensym_absorbs_a_leading_underscore() {
    let kb = KnowledgeBase::new();
    let plain = kb.gensym("foo");
    let underscored = kb.gensym("_foo");
    assert_eq!(number_after(&plain, "_foo_"), 0);
    assert_eq!(number_after(&underscored, "_foo_"), 1);
    assert_eq!(plain, sym("_foo_0"));
    assert_eq!(underscored, sym("_foo_1"));
}

#[test]
fn scope_holds_constants_templates_and_rules() {
    let mut scope = Scope::new(sym("s"));
    scope.constant(sym("answer"), num(42));
    scope.constant(sym("answer"), num(43));
    assert!(scope.lookup_constant(&sym("answer")).unwrap() == &num(43));
    assert!(scope.lookup_constant(&sym("question")).is_none());

    scope.add_rule_template(rule("g", vec![param(num(1))]));
    assert_eq!(scope.check_templates(&rule("g", vec![param(num(1))])), Compatibility::Match);
    assert_eq!(scope.check_templates(&rule("g", vec![param(num(2))])), Compatibility::Mismatch);
    assert_eq!(scope.check_templates(&rule("h", vec![param(num(2))])), Compatibility::Match);

    // Adding a clause asks no template.
    scope.add_clause(rule("g", vec![param(num(2))]));
    scope.add_clause(rule("g", vec![param(num(1))]));
    scope.add_clause(rule("h", vec![]));
    let g = scope.lookup_rule(&sym("g")).unwrap();
    assert_eq!(g.name, sym("g"));
    assert_eq!(g.rules.len(), 2);
    assert!(g.rules[0].params[0].parameter == num(2));
    assert!(g.rules[1].params[0].parameter == num(1));
    assert_eq!(scope.lookup_rule(&sym("h")).unwrap().rules.len(), 1);

    scope.clear_rules();
    assert!(scope.lookup_rule(&sym("g")).is_none());
    assert!(scope.lookup_rule(&sym("h")).is_none());
    assert!(scope.lookup_constant(&sym("answer")).unwrap() == &num(43));
    assert_eq!(scope.check_templates(&rule("g", vec![param(num(2))])), Compatibility::Mismatch);
    assert_eq!(scope.name(), &sym("s"));
}

#[test]
fn generic_rule_appends_clauses() {
    let mut rules = GenericRule::new(sym("f"), vec![]);
    assert_eq!(rules.name, sym("f"));
    assert!(rules.rules.is_empty());
    rules.add_rule(Arc::new(rule("f", vec![param(num(1))])));
    rules.add_rule(Arc::new(rule("f", vec![param(num(2))])));
    assert_eq!(rules.name, sym("f"));
    assert_eq!(rules.rules.len(), 2);
    assert!(rules.rules[0].params[0].parameter == num(1));
    assert!(rules.rules[1].params[0].parameter == num(2));

    let given = GenericRule::new(sym("g"), vec![Arc::new(rule("g", vec![]))]);
    assert_eq!(given.rules.len(), 1);
}

#[test]
fn sources_number_what_they_record() {
    let mut sources = Sources::default();
    assert!(sources.sources.is_empty());
    let first = sources.add_source(Source { filename: None, src: "f(1);".to_string() });
    let second = sources.add_source(Source {
        filename: Some("rules.txt".to_string()),
        src: "g(2);".to_string(),
    });
    assert_eq!(first, 0);
    assert_eq!(second, 1);
    assert_eq!(sources.sources.len(), 2);
    assert_eq!(sources.sources[0].src, "f(1);");
    assert_eq!(sources.sources[1].filename.as_deref(), Some("rules.txt"));
}

#[test]
fn errors_carry_their_message() {
    let not_allowed = RuntimeError::rule_not_allowed();
    assert!(matches!(not_allowed, RuntimeError::TypeError { stack_trace: None, .. }));
    assert_eq!(not_allowed.message(), "Rule not allowed in scope");
    let unsupported = RuntimeError::value_match_unsupported();
    assert!(matches!(unsupported, RuntimeError::Unsupported { .. }));
    assert_eq!(
        unsupported.message(),
        "matching a value against a specializer is not supported"
    );
}
