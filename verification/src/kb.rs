//! Scopes and the knowledge base that owns them.

use crate::assoc::assoc_map;
use crate::assoc::distinct_keys;
use crate::assoc::has_key;
use crate::assoc::is_first;
use crate::assoc::key_at;
use crate::assoc::lemma_absent;
use crate::assoc::lemma_assoc_empty;
use crate::assoc::lemma_first_exists;
use crate::assoc::lemma_first_is;
use crate::assoc::lemma_map_values;
use crate::assoc::lemma_push_fresh;
use crate::assoc::lemma_push_fresh_distinct;
use crate::assoc::lemma_same_keys;
use crate::assoc::lemma_same_keys_distinct;
use crate::assoc::lemma_update_distinct;
use crate::assoc::lemma_update_first;
use crate::compat::Compatibility;
use crate::compat::check_rule;
use crate::compat::check_templates;
use crate::compat::lemma_no_template_allows;
use crate::compat::rule_compatibility;
use crate::compat::templates_verdict;
use crate::counter::Counter;
use crate::counter::ID_MODULUS;
use crate::error::RuntimeError;
use crate::gensym::generated_symbol;
use crate::gensym::gensym_name;
use crate::rules::GenericRule;
use crate::rules::GenericRuleView;
use crate::rules::Rule;
use crate::rules::RuleView;
use crate::rules::rules_view;
use crate::sources::SourceView;
use crate::sources::Sources;
use crate::terms::Dictionary;
use crate::terms::Path;
use crate::terms::PathView;
use crate::terms::Symbol;
use crate::terms::Term;
use crate::terms::TermView;
use crate::terms::terms_view;
use std::sync::Arc;
use vstd::prelude::*;

verus! {

/// Names bound to terms.
pub type Bindings = Dictionary;

/// A namespace: constants, rule templates and rules, each found by name.
#[derive(Debug)]
pub struct Scope {
    name: Symbol,
    constants: Bindings,
    rule_templates: Vec<Rule>,
    rules: Vec<GenericRule>,
}

/// What a scope holds.
pub ghost struct ScopeView {
    pub name: Seq<char>,
    /// The constants, by name.
    pub constants: Map<Seq<char>, TermView>,
    /// The templates of all names, in the order in which they were added.
    pub rule_templates: Seq<RuleView>,
    /// The rules, by name: the clauses of one name in the order in which they
    /// were added.
    pub rules: Map<Seq<char>, GenericRuleView>,
}

/// The scope `name` with nothing in it.
pub open spec fn empty_scope(name: Seq<char>) -> ScopeView {
    ScopeView {
        name,
        constants: Map::empty(),
        rule_templates: Seq::empty(),
        rules: Map::empty(),
    }
}

/// The clauses of the name `name` in `scope`: none where it has no rule of
/// that name.
pub open spec fn clauses_of(scope: ScopeView, name: Seq<char>) -> Seq<RuleView> {
    if scope.rules.contains_key(name) {
        scope.rules[name].rules
    } else {
        Seq::empty()
    }
}

/// `scope` with `rule` as the last clause of its name.
pub open spec fn with_clause(scope: ScopeView, rule: RuleView) -> ScopeView {
    ScopeView {
        rules: scope.rules.insert(
            rule.name,
            GenericRuleView { name: rule.name, rules: clauses_of(scope, rule.name).push(rule) },
        ),
        ..scope
    }
}

/// Each set of clauses under its own name.
pub open spec fn clause_pairs(sets: Seq<GenericRule>) -> Seq<(Seq<char>, GenericRuleView)> {
    sets.map_values(|set: GenericRule| (set.name@, set@))
}

impl View for Scope {
    type V = ScopeView;

    closed spec fn view(&self) -> ScopeView {
        ScopeView {
            name: self.name@,
            constants: self.constants@,
            rule_templates: rules_view(self.rule_templates@),
            rules: assoc_map(clause_pairs(self.rules@)),
        }
    }
}

impl Scope {
    /// No constant and no rule name is held twice. Every scope that this
    /// module makes is well formed, and its operations keep it so.
    pub closed spec fn well_formed(&self) -> bool {
        self.constants.well_formed() && distinct_keys(clause_pairs(self.rules@))
    }

    /// The scope `name` with nothing in it.
    pub fn new(name: Symbol) -> (scope: Scope)
        ensures
            scope@ == empty_scope(name@),
            scope.well_formed(),
    {
        let scope = Scope {
            name,
            constants: Bindings::new(),
            rule_templates: Vec::new(),
            rules: Vec::new(),
        };
        proof {
            lemma_assoc_empty::<Seq<char>, GenericRuleView>();
            assert(clause_pairs(scope.rules@) =~= Seq::empty());
            assert(rules_view(scope.rule_templates@) =~= Seq::empty());
        }
        scope
    }

    /// The name of the scope.
    pub fn name(&self) -> (name: &Symbol)
        ensures
            name@ == self@.name,
    {
        &self.name
    }

    /// Every set of clauses is found under its own name.
    pub proof fn lemma_rules_named(self)
        ensures
            forall|name: Seq<char>| #[trigger]
                self@.rules.contains_key(name) ==> self@.rules[name].name == name,
    {
        let pairs = clause_pairs(self.rules@);
        assert forall|name: Seq<char>| #[trigger]
            self@.rules.contains_key(name) implies self@.rules[name].name == name by {
            let at = choose|at: int| key_at(pairs, name, at);
            lemma_first_exists(pairs, name, at);
        }
    }

    /// The index of the set of clauses named `name`.
    fn rules_position(&self, name: &Symbol) -> (found: Option<usize>)
        ensures
            match found {
                Some(i) => is_first(clause_pairs(self.rules@), name@, i as int),
                None => !has_key(clause_pairs(self.rules@), name@),
            },
    {
        let ghost pairs = clause_pairs(self.rules@);
        let mut i: usize = 0;
        while i < self.rules.len()
            invariant
                i <= self.rules.len(),
                pairs == clause_pairs(self.rules@),
                forall|j: int| 0 <= j < i ==> !key_at(pairs, name@, j),
            decreases self.rules.len() - i,
        {
            if self.rules[i].name.equals(name) {
                return Some(i);
            }
            i += 1;
        }
        proof {
            assert forall|j: int| 0 <= j < pairs.len() implies pairs[j].0 != name@ by {
                assert(!key_at(pairs, name@, j));
            }
            lemma_absent(pairs, name@);
        }
        None
    }

    /// The constant `name` of this scope.
    pub fn lookup_constant(&self, name: &Symbol) -> (found: Option<&Term>)
        ensures
            match found {
                Some(value) => self@.constants.contains_key(name@) && self@.constants[name@]
                    == value@,
                None => !self@.constants.contains_key(name@),
            },
    {
        self.constants.get(name)
    }

    /// The rules named `name` of this scope.
    pub fn lookup_rule(&self, name: &Symbol) -> (found: Option<&GenericRule>)
        ensures
            match found {
                Some(set) => self@.rules.contains_key(name@) && self@.rules[name@] == set@,
                None => !self@.rules.contains_key(name@),
            },
    {
        match self.rules_position(name) {
            Some(i) => {
                proof {
                    lemma_first_is(clause_pairs(self.rules@), name@, i as int);
                }
                Some(&self.rules[i])
            },
            None => None,
        }
    }

    /// Binds the constant `name` to `value`.
    pub fn constant(&mut self, name: Symbol, value: Term)
        ensures
            final(self)@ == (ScopeView {
                constants: old(self)@.constants.insert(name@, value@),
                ..old(self)@
            }),
            old(self).well_formed() ==> final(self).well_formed(),
    {
        self.constants.insert(name, value);
    }

    /// Adds `template` after the templates that the scope has.
    pub fn add_rule_template(&mut self, template: Rule)
        ensures
            final(self)@ == (ScopeView {
                rule_templates: old(self)@.rule_templates.push(template@),
                ..old(self)@
            }),
            old(self).well_formed() ==> final(self).well_formed(),
    {
        self.rule_templates.push(template);
        assert(rules_view(self.rule_templates@) =~= rules_view(old(self).rule_templates@).push(
            template@,
        ));
    }

    /// What the templates of this scope say of `rule`.
    pub fn check_templates(&self, rule: &Rule) -> (verdict: Compatibility)
        ensures
            verdict == templates_verdict(rule@, self@.rule_templates),
    {
        check_templates(rule, &self.rule_templates)
    }

    /// Adds `rule` as the last clause of its name, whatever the templates say.
    pub fn add_clause(&mut self, rule: Rule)
        ensures
            final(self)@ == with_clause(old(self)@, rule@),
            old(self).well_formed() ==> final(self).well_formed(),
    {
        let ghost pairs = clause_pairs(self.rules@);
        let ghost added = rule@;
        match self.rules_position(&rule.name) {
            Some(i) => {
                proof {
                    lemma_first_is(pairs, added.name, i as int);
                }
                self.rules[i].add_rule(Arc::new(rule));
                proof {
                    let grown = GenericRuleView {
                        name: added.name,
                        rules: clauses_of(old(self)@, added.name).push(added),
                    };
                    assert(clause_pairs(self.rules@) =~= pairs.update(
                        i as int,
                        (added.name, grown),
                    ));
                    lemma_update_first(pairs, added.name, i as int, grown);
                    if distinct_keys(pairs) {
                        lemma_update_distinct(pairs, i as int, grown);
                    }
                }
            },
            None => {
                let name = rule.name.clone();
                let mut set = GenericRule::new(name, Vec::new());
                set.add_rule(Arc::new(rule));
                self.rules.push(set);
                proof {
                    let grown = GenericRuleView {
                        name: added.name,
                        rules: clauses_of(old(self)@, added.name).push(added),
                    };
                    assert(set@.rules =~= grown.rules);
                    assert(clause_pairs(self.rules@) =~= pairs.push((added.name, grown)));
                    lemma_push_fresh(pairs, added.name, grown);
                    if distinct_keys(pairs) {
                        lemma_push_fresh_distinct(pairs, added.name, grown);
                    }
                }
            },
        }
    }

    /// Drops every rule. Constants and templates stay.
    pub fn clear_rules(&mut self)
        ensures
            final(self)@ == scope_without_rules(old(self)@),
            old(self).well_formed() ==> final(self).well_formed(),
    {
        self.rules.clear();
        proof {
            lemma_assoc_empty::<Seq<char>, GenericRuleView>();
            assert(clause_pairs(self.rules@) =~= Seq::empty());
        }
    }
}

/// The name of the scope that holds the constants.
pub open spec fn default_scope_name() -> Seq<char> {
    "default"@
}

/// Each scope under its own name.
pub open spec fn scope_pairs(scopes: Seq<Scope>) -> Seq<(Seq<char>, ScopeView)> {
    scopes.map_values(|scope: Scope| (scope@.name, scope@))
}

/// The scope `name` of `scopes`, or an empty scope of that name where there
/// is none yet.
pub open spec fn scope_or_empty(scopes: Map<Seq<char>, ScopeView>, name: Seq<char>) -> ScopeView {
    if scopes.contains_key(name) {
        scopes[name]
    } else {
        empty_scope(name)
    }
}

/// The scope that `included` names as seen from the scope `base`. Every scope
/// is open to every other: this is the scope `included`, where there is one.
pub open spec fn included_scope(
    scopes: Map<Seq<char>, ScopeView>,
    base: ScopeView,
    included: Seq<char>,
) -> Option<ScopeView> {
    if scopes.contains_key(included) {
        Some(scopes[included])
    } else {
        None
    }
}

/// The scope in which `path` is looked up from the scope `current`: `current`
/// itself for a name that stands alone, else the scope that the path names.
pub open spec fn resolved_scope(
    scopes: Map<Seq<char>, ScopeView>,
    path: PathView,
    current: Seq<char>,
) -> Option<ScopeView> {
    if !scopes.contains_key(current) {
        None
    } else {
        match path.scope {
            None => Some(scopes[current]),
            Some(included) => included_scope(scopes, scopes[current], included),
        }
    }
}

/// The constant that `path` names as seen from the scope `current`.
pub open spec fn constant_at(
    scopes: Map<Seq<char>, ScopeView>,
    path: PathView,
    current: Seq<char>,
) -> Option<TermView> {
    match resolved_scope(scopes, path, current) {
        Some(scope) => if scope.constants.contains_key(path.name) {
            Some(scope.constants[path.name])
        } else {
            None
        },
        None => None,
    }
}

/// The rules that `path` names as seen from the scope `current`, with the
/// name of the scope that holds them.
pub open spec fn rule_at(
    scopes: Map<Seq<char>, ScopeView>,
    path: PathView,
    current: Seq<char>,
) -> Option<(GenericRuleView, Seq<char>)> {
    match resolved_scope(scopes, path, current) {
        Some(scope) => if scope.rules.contains_key(path.name) {
            Some((scope.rules[path.name], scope.name))
        } else {
            None
        },
        None => None,
    }
}

/// `scopes` after the constant `name` was bound to `value`: the binding is
/// made in the default scope, which is created where it is missing.
pub open spec fn with_constant(
    scopes: Map<Seq<char>, ScopeView>,
    name: Seq<char>,
    value: TermView,
) -> Map<Seq<char>, ScopeView> {
    let scope = scope_or_empty(scopes, default_scope_name());
    scopes.insert(
        default_scope_name(),
        ScopeView { constants: scope.constants.insert(name, value), ..scope },
    )
}

/// `scopes` after `template` was added to the scope `scope`, which is created
/// where it is missing.
pub open spec fn with_template(
    scopes: Map<Seq<char>, ScopeView>,
    template: RuleView,
    scope: Seq<char>,
) -> Map<Seq<char>, ScopeView> {
    let target = scope_or_empty(scopes, scope);
    scopes.insert(
        scope,
        ScopeView { rule_templates: target.rule_templates.push(template), ..target },
    )
}

/// `scopes` after `rule` was added to the scope `scope`, which is created
/// where it is missing.
pub open spec fn with_rule(
    scopes: Map<Seq<char>, ScopeView>,
    rule: RuleView,
    scope: Seq<char>,
) -> Map<Seq<char>, ScopeView> {
    scopes.insert(scope, with_clause(scope_or_empty(scopes, scope), rule))
}

/// `scope` with its rules dropped.
pub open spec fn scope_without_rules(scope: ScopeView) -> ScopeView {
    ScopeView { rules: Map::empty(), ..scope }
}

/// `scopes` with the rules of every scope dropped.
pub open spec fn without_rules(scopes: Map<Seq<char>, ScopeView>) -> Map<Seq<char>, ScopeView> {
    scopes.map_values(|scope: ScopeView| scope_without_rules(scope))
}

/// The rules that an engine works with, the texts they were read from, and
/// the counters that number what the engine creates.
#[derive(Debug)]
pub struct KnowledgeBase {
    scopes: Vec<Scope>,
    pub sources: Sources,
    /// Numbers the symbols that `gensym` makes.
    gensym_counter: Counter,
    /// Numbers calls, instances and whatever else needs an identifier.
    id_counter: Counter,
    pub inline_queries: Vec<Term>,
}

/// What a knowledge base holds.
pub ghost struct KnowledgeBaseView {
    /// The scopes, by name.
    pub scopes: Map<Seq<char>, ScopeView>,
    pub sources: Seq<SourceView>,
    pub inline_queries: Seq<TermView>,
}

impl View for KnowledgeBase {
    type V = KnowledgeBaseView;

    closed spec fn view(&self) -> KnowledgeBaseView {
        KnowledgeBaseView {
            scopes: assoc_map(scope_pairs(self.scopes@)),
            sources: self.sources@,
            inline_queries: terms_view(self.inline_queries@),
        }
    }
}

impl KnowledgeBase {
    /// The counter behind [`KnowledgeBase::new_id`].
    pub closed spec fn id_source(&self) -> Counter {
        self.id_counter
    }

    /// The counter behind [`KnowledgeBase::gensym`].
    pub closed spec fn gensym_source(&self) -> Counter {
        self.gensym_counter
    }

    /// `self` has the sources, the inline queries and the counters of
    /// `before`.
    pub open spec fn same_but_scopes(&self, before: &KnowledgeBase) -> bool {
        &&& self@.sources == before@.sources
        &&& self@.inline_queries == before@.inline_queries
        &&& self.id_source() == before.id_source()
        &&& self.gensym_source() == before.gensym_source()
    }

    /// The default scope is there, no scope name is held twice, and every
    /// scope is well formed. [`KnowledgeBase::new`] makes a knowledge base
    /// that is well formed, and every operation keeps it so.
    pub closed spec fn well_formed(&self) -> bool {
        &&& has_key(scope_pairs(self.scopes@), default_scope_name())
        &&& distinct_keys(scope_pairs(self.scopes@))
        &&& forall|i: int|
            0 <= i < self.scopes@.len() ==> (#[trigger] self.scopes@[i]).well_formed()
    }

    /// A knowledge base that is well formed has the default scope.
    pub proof fn lemma_default_scope_exists(self)
        requires
            self.well_formed(),
        ensures
            self@.scopes.contains_key(default_scope_name()),
    {
    }

    /// A knowledge base with the default scope, empty, and nothing else.
    pub fn new() -> (kb: KnowledgeBase)
        ensures
            kb@.scopes == Map::<Seq<char>, ScopeView>::empty().insert(
                default_scope_name(),
                empty_scope(default_scope_name()),
            ),
            kb@.sources == Seq::<SourceView>::empty(),
            kb@.inline_queries == Seq::<TermView>::empty(),
            kb.well_formed(),
    {
        let mut scopes: Vec<Scope> = Vec::new();
        let default = Scope::new(Symbol::new("default"));
        scopes.push(default);
        proof {
            let none = Seq::<(Seq<char>, ScopeView)>::empty();
            lemma_assoc_empty::<Seq<char>, ScopeView>();
            lemma_absent(none, default_scope_name());
            lemma_push_fresh(none, default_scope_name(), empty_scope(default_scope_name()));
            assert(scope_pairs(scopes@) =~= none.push(
                (default_scope_name(), empty_scope(default_scope_name())),
            ));
            assert(key_at(scope_pairs(scopes@), default_scope_name(), 0));
        }
        KnowledgeBase {
            scopes,
            sources: Sources::default(),
            id_counter: Counter::default(),
            gensym_counter: Counter::default(),
            inline_queries: Vec::new(),
        }
    }

    /// Every scope is found under its own name.
    pub proof fn lemma_scopes_named(self)
        ensures
            forall|name: Seq<char>| #[trigger]
                self@.scopes.contains_key(name) ==> self@.scopes[name].name == name,
    {
        let pairs = scope_pairs(self.scopes@);
        assert forall|name: Seq<char>| #[trigger]
            self@.scopes.contains_key(name) implies self@.scopes[name].name == name by {
            let at = choose|at: int| key_at(pairs, name, at);
            lemma_first_exists(pairs, name, at);
        }
    }

    /// The index of the scope `name`.
    fn scope_position(&self, name: &Symbol) -> (found: Option<usize>)
        ensures
            match found {
                Some(i) => is_first(scope_pairs(self.scopes@), name@, i as int),
                None => !has_key(scope_pairs(self.scopes@), name@),
            },
    {
        let ghost pairs = scope_pairs(self.scopes@);
        let mut i: usize = 0;
        while i < self.scopes.len()
            invariant
                i <= self.scopes.len(),
                pairs == scope_pairs(self.scopes@),
                forall|j: int| 0 <= j < i ==> !key_at(pairs, name@, j),
            decreases self.scopes.len() - i,
        {
            if self.scopes[i].name().equals(name) {
                return Some(i);
            }
            i += 1;
        }
        proof {
            assert forall|j: int| 0 <= j < pairs.len() implies pairs[j].0 != name@ by {
                assert(!key_at(pairs, name@, j));
            }
            lemma_absent(pairs, name@);
        }
        None
    }

    /// The index of the scope `name`, which is created, empty, where it is
    /// missing.
    fn scope_position_or_new(&mut self, name: Symbol) -> (i: usize)
        ensures
            is_first(scope_pairs(final(self).scopes@), name@, i as int),
            final(self).scopes@[i as int]@ == scope_or_empty(old(self)@.scopes, name@),
            final(self)@.scopes == old(self)@.scopes.insert(
                name@,
                scope_or_empty(old(self)@.scopes, name@),
            ),
            final(self).same_but_scopes(old(self)),
            old(self).well_formed() ==> final(self).well_formed(),
    {
        let ghost pairs = scope_pairs(self.scopes@);
        let ghost key = name@;
        match self.scope_position(&name) {
            Some(i) => {
                proof {
                    lemma_first_is(pairs, key, i as int);
                }
                i
            },
            None => {
                let i = self.scopes.len();
                self.scopes.push(Scope::new(name));
                proof {
                    assert(scope_pairs(self.scopes@) =~= pairs.push((key, empty_scope(key))));
                    lemma_push_fresh(pairs, key, empty_scope(key));
                    if old(self).well_formed() {
                        lemma_push_fresh_distinct(pairs, key, empty_scope(key));
                        let d = choose|d: int| key_at(pairs, default_scope_name(), d);
                        assert(key_at(scope_pairs(self.scopes@), default_scope_name(), d));
                    }
                    assert forall|j: int| 0 <= j < i implies !key_at(
                        scope_pairs(self.scopes@),
                        key,
                        j,
                    ) by {
                        assert(!key_at(pairs, key, j));
                    }
                }
                i
            },
        }
    }

    /// The scope `name`.
    pub fn get_scope(&self, name: &Symbol) -> (found: Option<&Scope>)
        ensures
            match found {
                Some(scope) => self@.scopes.contains_key(name@) && self@.scopes[name@] == scope@,
                None => !self@.scopes.contains_key(name@),
            },
    {
        match self.scope_position(name) {
            Some(i) => {
                proof {
                    lemma_first_is(scope_pairs(self.scopes@), name@, i as int);
                }
                Some(&self.scopes[i])
            },
            None => None,
        }
    }

    /// An identifier: each call gives the next one, and after 2^52 - 1 the
    /// count starts again at 0.
    pub fn new_id(&self) -> (id: u64)
        ensures
            id < ID_MODULUS,
    {
        self.id_counter.next()
    }

    /// A handle on the counter behind [`KnowledgeBase::new_id`].
    pub fn id_counter(&self) -> (counter: Counter)
        ensures
            counter == self.id_source(),
    {
        self.id_counter.clone()
    }

    /// A new symbol, named after `prefix` and the next number of the
    /// knowledge base's own count.
    pub fn gensym(&self, prefix: &str) -> (symbol: Symbol)
        ensures
            exists|n: u64| n < ID_MODULUS && symbol@ == gensym_name(prefix@, n as nat),
    {
        let next = self.gensym_counter.next();
        generated_symbol(prefix, next)
    }

    /// Binds the constant `name` to `value`. Constants live in the default
    /// scope, which is created where it is missing.
    pub fn constant(&mut self, name: Symbol, value: Term)
        ensures
            final(self)@.scopes == with_constant(old(self)@.scopes, name@, value@),
            final(self).same_but_scopes(old(self)),
            old(self).well_formed() ==> final(self).well_formed(),
    {
        let i = self.scope_position_or_new(Symbol::new("default"));
        let ghost pairs = scope_pairs(self.scopes@);
        let ghost target = self.scopes@[i as int]@;
        let ghost held = self.well_formed();
        self.scopes[i].constant(name, value);
        proof {
            if held {
                lemma_kept_well_formed(pairs, scope_pairs(self.scopes@));
            }
            let changed = ScopeView {
                constants: target.constants.insert(name@, value@),
                ..target
            };
            assert(scope_pairs(self.scopes@) =~= pairs.update(
                i as int,
                (default_scope_name(), changed),
            ));
            lemma_update_first(pairs, default_scope_name(), i as int, changed);
        }
    }

    /// Whether a constant is bound to `symbol`.
    pub fn is_constant(&self, symbol: &Symbol) -> (bound: bool)
        ensures
            bound == constant_at(
                self@.scopes,
                PathView { scope: None, name: symbol@ },
                default_scope_name(),
            ).is_some(),
    {
        let default = Symbol::new("default");
        self.lookup_constant(Path::with_name(symbol.clone()), &default).is_some()
    }

    /// The constant that `const_path` names, as seen from the scope `scope`.
    pub fn lookup_constant(&self, const_path: Path, scope: &Symbol) -> (found: Option<&Term>)
        ensures
            match found {
                Some(value) => constant_at(self@.scopes, const_path@, scope@) == Some(value@),
                None => constant_at(self@.scopes, const_path@, scope@) is None,
            },
    {
        match self.get_scope(scope) {
            None => None,
            Some(current) => match const_path.scope() {
                None => current.lookup_constant(const_path.name()),
                Some(included) => match self.get_included_scope(current, included) {
                    None => None,
                    Some(holder) => holder.lookup_constant(const_path.name()),
                },
            },
        }
    }

    /// The scope that `included` names as seen from the scope `base`. For now
    /// every scope is open to every other.
    pub fn get_included_scope(&self, base: &Scope, included: &Symbol) -> (found: Option<&Scope>)
        ensures
            match found {
                Some(scope) => included_scope(self@.scopes, base@, included@) == Some(scope@),
                None => included_scope(self@.scopes, base@, included@) is None,
            },
    {
        self.get_scope(included)
    }

    /// The rules that `rule_path` names, as seen from the scope
    /// `current_scope`, and the name of the scope that holds them.
    pub fn lookup_rule(&self, rule_path: Path, current_scope: &Symbol) -> (found: Option<
        (&GenericRule, &Symbol),
    >)
        ensures
            match found {
                Some((rules, owner)) => rule_at(self@.scopes, rule_path@, current_scope@) == Some(
                    (rules@, owner@),
                ),
                None => rule_at(self@.scopes, rule_path@, current_scope@) is None,
            },
    {
        let holder = match self.get_scope(current_scope) {
            None => None,
            Some(current) => match rule_path.scope() {
                None => Some(current),
                Some(included) => self.get_included_scope(current, included),
            },
        };
        match holder {
            None => None,
            Some(scope) => match scope.lookup_rule(rule_path.name()) {
                None => None,
                Some(rules) => Some((rules, scope.name())),
            },
        }
    }

    /// Adds `rule` to the rules of the scope `scope`, which is created where
    /// it is missing, unless the templates of the scope speak against it:
    /// then nothing changes.
    pub fn add_rule(&mut self, rule: Rule, scope: Symbol) -> (result: Result<(), RuntimeError>)
        ensures
            final(self).same_but_scopes(old(self)),
            old(self).well_formed() ==> final(self).well_formed(),
            match templates_verdict(
                rule@,
                scope_or_empty(old(self)@.scopes, scope@).rule_templates,
            ) {
                Compatibility::Match => result is Ok && final(self)@.scopes == with_rule(
                    old(self)@.scopes,
                    rule@,
                    scope@,
                ),
                Compatibility::Mismatch => {
                    &&& final(self)@.scopes == old(self)@.scopes
                    &&& result matches Err(e)
                    &&& e.is_rule_not_allowed()
                },
                Compatibility::Unsupported => {
                    &&& final(self)@.scopes == old(self)@.scopes
                    &&& result matches Err(e)
                    &&& e.is_value_match_unsupported()
                },
            },
    {
        match self.scope_position(&scope) {
            None => {
                let ghost pairs = scope_pairs(self.scopes@);
                let ghost added = rule@;
                let mut target = Scope::new(scope);
                proof {
                    lemma_no_template_allows(added);
                }
                target.add_clause(rule);
                self.scopes.push(target);
                proof {
                    assert(scope_pairs(self.scopes@) =~= pairs.push((scope@, target@)));
                    lemma_push_fresh(pairs, scope@, target@);
                    if old(self).well_formed() {
                        lemma_push_fresh_distinct(pairs, scope@, target@);
                        let d = choose|d: int| key_at(pairs, default_scope_name(), d);
                        assert(key_at(scope_pairs(self.scopes@), default_scope_name(), d));
                    }
                }
                Ok(())
            },
            Some(i) => {
                let ghost pairs = scope_pairs(self.scopes@);
                proof {
                    lemma_first_is(pairs, scope@, i as int);
                }
                match self.scopes[i].check_templates(&rule) {
                    Compatibility::Match => {
                        let ghost changed = with_clause(self.scopes@[i as int]@, rule@);
                        self.scopes[i].add_clause(rule);
                        proof {
                            assert(scope_pairs(self.scopes@) =~= pairs.update(
                                i as int,
                                (scope@, changed),
                            ));
                            lemma_update_first(pairs, scope@, i as int, changed);
                            if old(self).well_formed() {
                                lemma_kept_well_formed(pairs, scope_pairs(self.scopes@));
                            }
                        }
                        Ok(())
                    },
                    Compatibility::Mismatch => Err(RuntimeError::rule_not_allowed()),
                    Compatibility::Unsupported => Err(RuntimeError::value_match_unsupported()),
                }
            },
        }
    }

    /// Whether `rule` has the shape that `template` asks for, position by
    /// position, as far as both have parameters.
    pub fn check_rule_compatibility(rule: &Rule, template: &Rule) -> (result: Result<
        bool,
        RuntimeError,
    >)
        ensures
            match rule_compatibility(rule@, template@) {
                Compatibility::Match => result == Ok::<bool, RuntimeError>(true),
                Compatibility::Mismatch => result == Ok::<bool, RuntimeError>(false),
                Compatibility::Unsupported => {
                    &&& result matches Err(e)
                    &&& e.is_value_match_unsupported()
                },
            },
    {
        match check_rule(rule, template) {
            Compatibility::Match => Ok(true),
            Compatibility::Mismatch => Ok(false),
            Compatibility::Unsupported => Err(RuntimeError::value_match_unsupported()),
        }
    }

    /// Drops the rules of every scope, the sources and the inline queries.
    /// Scopes, constants and templates stay.
    pub fn clear_rules(&mut self)
        ensures
            final(self)@.scopes == without_rules(old(self)@.scopes),
            final(self)@.sources == Seq::<SourceView>::empty(),
            final(self)@.inline_queries == Seq::<TermView>::empty(),
            final(self).id_source() == old(self).id_source(),
            final(self).gensym_source() == old(self).gensym_source(),
            old(self).well_formed() ==> final(self).well_formed(),
    {
        let ghost before = scope_pairs(self.scopes@);
        let mut i: usize = 0;
        while i < self.scopes.len()
            invariant
                i <= self.scopes.len(),
                self.scopes.len() == before.len(),
                forall|j: int|
                    0 <= j < i ==> scope_pairs(self.scopes@)[j] == (
                        before[j].0,
                        scope_without_rules(before[j].1),
                    ),
                forall|j: int| i <= j < before.len() ==> scope_pairs(self.scopes@)[j] == before[j],
                old(self).well_formed() ==> forall|j: int|
                    0 <= j < self.scopes@.len() ==> (#[trigger] self.scopes@[j]).well_formed(),
                self.sources == old(self).sources,
                self.inline_queries == old(self).inline_queries,
                self.id_counter == old(self).id_counter,
                self.gensym_counter == old(self).gensym_counter,
            decreases self.scopes.len() - i,
        {
            let ghost pairs = scope_pairs(self.scopes@);
            self.scopes[i].clear_rules();
            proof {
                let now = scope_pairs(self.scopes@);
                let at = i as int;
                assert forall|j: int| 0 <= j < before.len() && j != at implies now[j]
                    == pairs[j] by {}
            }
            i += 1;
        }
        self.sources = Sources::default();
        self.inline_queries.clear();
        proof {
            let cleared = |scope: ScopeView| scope_without_rules(scope);
            lemma_map_values(before, scope_pairs(self.scopes@), cleared);
            if old(self).well_formed() {
                lemma_kept_well_formed(before, scope_pairs(self.scopes@));
            }
        }
    }

    /// Adds `template` to the templates of the scope `scope`, which is
    /// created where it is missing. The templates that the scope has stay.
    pub fn add_rule_template(&mut self, template: Rule, scope: Symbol)
        ensures
            final(self)@.scopes == with_template(old(self)@.scopes, template@, scope@),
            final(self).same_but_scopes(old(self)),
            old(self).well_formed() ==> final(self).well_formed(),
    {
        let ghost key = scope@;
        let i = self.scope_position_or_new(scope);
        let ghost pairs = scope_pairs(self.scopes@);
        let ghost target = self.scopes@[i as int]@;
        let ghost held = self.well_formed();
        self.scopes[i].add_rule_template(template);
        proof {
            if held {
                lemma_kept_well_formed(pairs, scope_pairs(self.scopes@));
            }
            let changed = ScopeView {
                rule_templates: target.rule_templates.push(template@),
                ..target
            };
            assert(scope_pairs(self.scopes@) =~= pairs.update(i as int, (key, changed)));
            lemma_update_first(pairs, key, i as int, changed);
        }
    }
}

/// Scopes that change in place keep the default scope among them and their
/// names distinct.
proof fn lemma_kept_well_formed(
    before: Seq<(Seq<char>, ScopeView)>,
    after: Seq<(Seq<char>, ScopeView)>,
)
    requires
        before.len() == after.len(),
        forall|j: int| 0 <= j < before.len() ==> before[j].0 == after[j].0,
        has_key(before, default_scope_name()),
        distinct_keys(before),
    ensures
        has_key(after, default_scope_name()),
        distinct_keys(after),
{
    lemma_same_keys(before, after, default_scope_name());
    lemma_same_keys_distinct(before, after);
}

/// No operation of a knowledge base removes a scope: whatever is defined,
/// added or cleared, the scopes that were there are there, the default scope
/// among them.
pub proof fn lemma_scopes_stay(
    scopes: Map<Seq<char>, ScopeView>,
    name: Seq<char>,
    value: TermView,
    rule: RuleView,
    scope: Seq<char>,
    kept: Seq<char>,
)
    requires
        scopes.contains_key(kept),
    ensures
        with_constant(scopes, name, value).contains_key(kept),
        with_template(scopes, rule, scope).contains_key(kept),
        with_rule(scopes, rule, scope).contains_key(kept),
        without_rules(scopes).contains_key(kept),
{
}

/// A constant that was defined is found under its name from the default
/// scope, and from every scope under its name within the default scope.
pub proof fn lemma_defined_constant_is_found(
    scopes: Map<Seq<char>, ScopeView>,
    name: Seq<char>,
    value: TermView,
    current: Seq<char>,
)
    ensures
        constant_at(
            with_constant(scopes, name, value),
            PathView { scope: None, name },
            default_scope_name(),
        ) == Some(value),
        scopes.contains_key(current) ==> constant_at(
            with_constant(scopes, name, value),
            PathView { scope: Some(default_scope_name()), name },
            current,
        ) == Some(value),
{
}

/// A rule that was added is found under its name from its scope, as the last
/// of the clauses of that name, and the scope that holds it is the one it was
/// added to.
pub proof fn lemma_added_rule_is_found(
    scopes: Map<Seq<char>, ScopeView>,
    rule: RuleView,
    scope: Seq<char>,
)
    requires
        scopes.contains_key(scope) ==> scopes[scope].name == scope,
    ensures
        rule_at(with_rule(scopes, rule, scope), PathView { scope: None, name: rule.name }, scope)
            == Some(
            (
                GenericRuleView {
                    name: rule.name,
                    rules: clauses_of(scope_or_empty(scopes, scope), rule.name).push(rule),
                },
                scope,
            ),
        ),
{
}

/// Clearing the rules leaves no rule to be found under any path, and leaves
/// every scope its name, its constants and its templates: a path names the
/// constant that it named before, and the templates say of a rule what they
/// said before.
pub proof fn lemma_clearing_keeps_constants_and_templates(
    scopes: Map<Seq<char>, ScopeView>,
    path: PathView,
    current: Seq<char>,
    rule: RuleView,
)
    ensures
        rule_at(without_rules(scopes), path, current) is None,
        constant_at(without_rules(scopes), path, current) == constant_at(scopes, path, current),
        scope_or_empty(without_rules(scopes), current).rule_templates == scope_or_empty(
            scopes,
            current,
        ).rule_templates,
        templates_verdict(rule, scope_or_empty(without_rules(scopes), current).rule_templates)
            == templates_verdict(rule, scope_or_empty(scopes, current).rule_templates),
{
}

/// A rule that the templates allow is, once added, the last clause of its
/// name in its scope, after the clauses that were there; the clauses of
/// other names and of other scopes are as before.
pub proof fn lemma_added_rule_is_last(
    scopes: Map<Seq<char>, ScopeView>,
    rule: RuleView,
    scope: Seq<char>,
    other_name: Seq<char>,
    other_scope: Seq<char>,
)
    ensures
        clauses_of(with_rule(scopes, rule, scope)[scope], rule.name) == clauses_of(
            scope_or_empty(scopes, scope),
            rule.name,
        ).push(rule),
        other_name != rule.name ==> clauses_of(with_rule(scopes, rule, scope)[scope], other_name)
            == clauses_of(scope_or_empty(scopes, scope), other_name),
        other_scope != scope ==> scope_or_empty(with_rule(scopes, rule, scope), other_scope)
            == scope_or_empty(scopes, other_scope),
{
}

} // verus!
