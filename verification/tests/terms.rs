use polar_core::terms::list_equals;
use polar_core::terms::Dictionary;
use polar_core::terms::InstanceLiteral;
use polar_core::terms::Path;
use polar_core::terms::Pattern;
use polar_core::terms::Symbol;
use polar_core::terms::Term;
use polar_core::terms::Value;

fn s(text: &str) -> Symbol {
    Symbol::new(text)
}

fn n(i: i64) -> Term {
    Term::new(Value::Integer(i))
}

fn t(text: &str) -> Term {
    Term::new(Value::String(text.to_string()))
}

fn dict(entries: Vec<(&str, Term)>) -> Dictionary {
    Dictionary { fields: entries.into_iter().map(|(k, v)| (s(k), v)).collect() }
}

#[test]
fn symbols_are_equal_by_name() {
    assert!(s("a").equals(&s("a")));
    assert!(!s("a").equals(&s("b")));
    assert!(!s("a").equals(&s("")));
    assert_eq!(s("a"), s("a").clone());
    assert_eq!(s("abc").0, "abc");
}

#[test]
fn paths_hold_scope_and_name() {
    let alone = Path::with_name(s("f"));
    assert!(alone.scope().is_none());
    assert_eq!(alone.name(), &s("f"));
    let scoped = Path::with_scope(s("a"), s("f"));
    assert_eq!(scoped.scope(), Some(&s("a")));
    assert_eq!(scoped.name(), &s("f"));
}

#[test]
fn term_gives_back_its_value() {
    let term = Term::new(Value::Integer(5));
    assert!(matches!(term.value(), Value::Integer(5)));
}

#[test]
fn plain_terms_are_equal_by_kind_and_content() {
    assert!(n(1) == n(1));
    assert!(n(1) != n(2));
    assert!(t("a") == t("a"));
    assert!(t("a") != t("b"));
    assert!(t("1") != n(1));
    assert!(Term::new(Value::Boolean(true)) == Term::new(Value::Boolean(true)));
    assert!(Term::new(Value::Boolean(true)) != Term::new(Value::Boolean(false)));
    assert!(Term::new(Value::Variable(s("x"))) == Term::new(Value::Variable(s("x"))));
    assert!(Term::new(Value::Variable(s("x"))) != Term::new(Value::Variable(s("y"))));
    assert!(Term::new(Value::Variable(s("x"))) != t("x"));
    assert!(n(i64::MIN) == n(i64::MIN));
    assert!(n(i64::MIN) != n(i64::MAX));
}

#[test]
fn lists_are_equal_item_by_item() {
    assert!(list_equals(&vec![], &vec![]));
    assert!(list_equals(&vec![n(1), t("a")], &vec![n(1), t("a")]));
    assert!(!list_equals(&vec![n(1), t("a")], &vec![t("a"), n(1)]));
    assert!(!list_equals(&vec![n(1)], &vec![n(1), n(1)]));
    assert!(!list_equals(&vec![n(1), n(1)], &vec![n(1)]));
    assert!(Term::new(Value::List(vec![n(1)])) == Term::new(Value::List(vec![n(1)])));
    assert!(Term::new(Value::List(vec![n(1)])) != Term::new(Value::List(vec![n(2)])));
    let nested = || Term::new(Value::List(vec![Term::new(Value::List(vec![n(1)])), n(2)]));
    assert!(nested() == nested());
}

#[test]
fn dictionaries_are_equal_as_maps() {
    let a = dict(vec![("x", n(1)), ("y", n(2))]);
    let b = dict(vec![("y", n(2)), ("x", n(1))]);
    assert!(a.equals(&b));
    assert!(b.equals(&a));
    assert!(!a.equals(&dict(vec![("x", n(1))])));
    assert!(!dict(vec![("x", n(1))]).equals(&a));
    assert!(!a.equals(&dict(vec![("x", n(1)), ("y", n(3))])));
    assert!(!a.equals(&dict(vec![("x", n(1)), ("z", n(2))])));
    assert!(dict(vec![]).equals(&Dictionary::new()));
}

#[test]
fn first_entry_of_a_name_counts() {
    let doubled = dict(vec![("x", n(1)), ("x", n(2))]);
    assert!(doubled.get(&s("x")).unwrap() == &n(1));
    assert_eq!(doubled.position(&s("x")), Some(0));
    assert!(doubled.equals(&dict(vec![("x", n(1))])));
    assert!(dict(vec![("x", n(1))]).equals(&doubled));
    assert!(!doubled.equals(&dict(vec![("x", n(2))])));
    assert!(doubled.included_in(&dict(vec![("x", n(1)), ("y", n(5))])));
    assert!(!doubled.included_in(&dict(vec![("x", n(2))])));
}

#[test]
fn insert_binds_and_replaces() {
    let mut d = Dictionary::new();
    assert!(d.get(&s("x")).is_none());
    assert!(!d.contains_key(&s("x")));
    d.insert(s("x"), n(1));
    d.insert(s("y"), n(2));
    assert!(d.get(&s("x")).unwrap() == &n(1));
    assert!(d.get(&s("y")).unwrap() == &n(2));
    assert!(d.contains_key(&s("y")));
    assert_eq!(d.position(&s("y")), Some(1));
    assert_eq!(d.position(&s("z")), None);
    d.insert(s("x"), n(3));
    assert!(d.get(&s("x")).unwrap() == &n(3));
    assert!(d.get(&s("y")).unwrap() == &n(2));
    assert_eq!(d.fields.len(), 2);
}

#[test]
fn inclusion_of_dictionaries() {
    let small = dict(vec![("x", n(1))]);
    let large = dict(vec![("y", n(2)), ("x", n(1))]);
    assert!(small.included_in(&large));
    assert!(!large.included_in(&small));
    assert!(small.included_in(&small));
    assert!(Dictionary::new().included_in(&small));
    assert!(!small.included_in(&Dictionary::new()));
    assert!(!small.included_in(&dict(vec![("x", n(2)), ("y", n(1))])));
    assert!(small.names_included_in(&dict(vec![("x", n(2))])));
    assert!(!large.names_included_in(&small));
    assert!(Dictionary::new().names_included_in(&Dictionary::new()));
}

#[test]
fn patterns_are_equal_by_kind_tag_and_fields() {
    let instance = |tag: &str, entries: Vec<(&str, Term)>| {
        Pattern::Instance(InstanceLiteral { tag: s(tag), fields: dict(entries) })
    };
    assert!(instance("A", vec![("x", n(1))]).equals(&instance("A", vec![("x", n(1))])));
    assert!(!instance("A", vec![("x", n(1))]).equals(&instance("B", vec![("x", n(1))])));
    assert!(!instance("A", vec![("x", n(1))]).equals(&instance("A", vec![("x", n(2))])));
    assert!(!instance("A", vec![]).equals(&Pattern::Dictionary(dict(vec![]))));
    assert!(Pattern::Dictionary(dict(vec![("x", n(1))]))
        .equals(&Pattern::Dictionary(dict(vec![("x", n(1))]))));
    // A dictionary and a dictionary pattern are different terms.
    assert!(
        Term::new(Value::Dictionary(dict(vec![])))
            != Term::new(Value::Pattern(Pattern::Dictionary(dict(vec![]))))
    );
    assert!(
        Term::new(Value::Dictionary(dict(vec![("a", t("b"))])))
            == Term::new(Value::Dictionary(dict(vec![("a", t("b"))])))
    );
    let literal = InstanceLiteral { tag: s("A"), fields: dict(vec![("x", n(1))]) };
    assert!(literal.equals(&InstanceLiteral { tag: s("A"), fields: dict(vec![("x", n(1))]) }));
    assert!(!literal.equals(&InstanceLiteral { tag: s("A"), fields: dict(vec![]) }));
}
