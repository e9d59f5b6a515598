//! Rules, their parameters, and the clauses of one name.

use crate::terms::Symbol;
use crate::terms::Term;
use crate::terms::TermView;
use std::sync::Arc;
use vstd::prelude::*;

verus! {

/// One parameter of a rule: a term and, optionally, a specializer that
/// constrains what the term may be.
#[derive(Debug)]
pub struct Parameter {
    pub parameter: Term,
    pub specializer: Option<Term>,
}

/// What a parameter stands for.
pub ghost struct ParameterView {
    pub parameter: TermView,
    pub specializer: Option<TermView>,
}

impl View for Parameter {
    type V = ParameterView;

    open spec fn view(&self) -> ParameterView {
        ParameterView {
            parameter: self.parameter@,
            specializer: match self.specializer {
                Some(term) => Some(term@),
                None => None,
            },
        }
    }
}

/// A named clause with an ordered list of parameters.
#[derive(Debug)]
pub struct Rule {
    pub name: Symbol,
    pub params: Vec<Parameter>,
    pub body: Term,
}

/// What a rule stands for.
pub ghost struct RuleView {
    pub name: Seq<char>,
    pub params: Seq<ParameterView>,
    pub body: TermView,
}

impl View for Rule {
    type V = RuleView;

    open spec fn view(&self) -> RuleView {
        RuleView {
            name: self.name@,
            params: self.params@.map_values(|p: Parameter| p@),
            body: self.body@,
        }
    }
}

/// The views of a list of rules.
pub open spec fn rules_view(rules: Seq<Rule>) -> Seq<RuleView> {
    rules.map_values(|r: Rule| r@)
}

/// The clauses that share one name within a scope, in the order in which
/// they were added.
#[derive(Debug)]
pub struct GenericRule {
    pub name: Symbol,
    pub rules: Vec<Arc<Rule>>,
}

/// What the clauses of one name stand for.
pub ghost struct GenericRuleView {
    pub name: Seq<char>,
    pub rules: Seq<RuleView>,
}

impl View for GenericRule {
    type V = GenericRuleView;

    open spec fn view(&self) -> GenericRuleView {
        GenericRuleView { name: self.name@, rules: self.rules@.map_values(|r: Arc<Rule>| r@) }
    }
}

impl GenericRule {
    /// The clauses `rules` under the name `name`.
    pub fn new(name: Symbol, rules: Vec<Arc<Rule>>) -> (set: GenericRule)
        ensures
            set@ == (GenericRuleView { name: name@, rules: rules@.map_values(|r: Arc<Rule>| r@) }),
    {
        GenericRule { name, rules }
    }

    /// Appends a clause.
    pub fn add_rule(&mut self, rule: Arc<Rule>)
        ensures
            final(self)@.name == old(self)@.name,
            final(self)@.rules == old(self)@.rules.push(rule@),
    {
        self.rules.push(rule);
    }
}

} // verus!
