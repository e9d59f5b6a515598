//! Whether a rule has the shape that a template asks for.
//!
//! A rule is held against a template position by position: the parameter of
//! the rule against the parameter that the template has in the same place.
//! Each pair is a match, a mismatch, or one of the pairs that are not
//! supported; the first pair that is no match decides for the rule. A scope
//! allows a rule when no template of the rule's name and arity is there, or
//! when one of them is compatible with the rule.

use crate::rules::Parameter;
use crate::rules::ParameterView;
use crate::rules::Rule;
use crate::rules::RuleView;
use crate::rules::rules_view;
use crate::terms::InstanceLiteral;
use crate::terms::InstanceView;
use crate::terms::Pattern;
use crate::terms::PatternView;
use crate::terms::TermView;
use crate::terms::Value;
use crate::terms::fields_included;
use vstd::prelude::*;

verus! {

/// The answer for one pair of parameters, or for a whole rule.
#[derive(Debug, Clone, Copy, PartialEq, Eq, Structural)]
pub enum Compatibility {
    Match,
    Mismatch,
    /// The pair is one for which no answer is defined.
    Unsupported,
}

/// An instance pattern of a rule meets one of a template when it names the
/// same tag and constrains every field that the template constrains, to an
/// equal term. It may constrain more fields.
pub open spec fn instance_accepts(template: InstanceView, rule: InstanceView) -> bool {
    template.tag == rule.tag && fields_included(template.fields, rule.fields)
}

/// The answer for the parameter `rule` of a rule where the template has the
/// parameter `template`. The first line that fits decides.
pub open spec fn parameter_compatibility(
    template: ParameterView,
    rule: ParameterView,
) -> Compatibility {
    match (template.parameter, template.specializer, rule.parameter, rule.specializer) {
        (
            TermView::Variable(_),
            Some(TermView::Pattern(PatternView::Instance(wanted))),
            TermView::Variable(_),
            Some(TermView::Pattern(PatternView::Instance(given))),
        ) => if instance_accepts(wanted, given) {
            Compatibility::Match
        } else {
            Compatibility::Mismatch
        },
        (TermView::Variable(_), Some(_), TermView::Variable(_), None) => Compatibility::Mismatch,
        (TermView::Variable(_), Some(_), _, None) => Compatibility::Unsupported,
        (TermView::Variable(_), None, _, _) => Compatibility::Match,
        (wanted, None, given, None) => if wanted == given {
            Compatibility::Match
        } else {
            Compatibility::Mismatch
        },
        _ => Compatibility::Mismatch,
    }
}

/// Whether the instance pattern `rule` meets the instance pattern `template`.
pub fn instance_pattern_accepts(template: &InstanceLiteral, rule: &InstanceLiteral) -> (fits: bool)
    ensures
        fits == instance_accepts(template@, rule@),
{
    template.tag.equals(&rule.tag) && template.fields.included_in(&rule.fields)
}

/// Holds one parameter of a rule against the parameter of a template at the
/// same position.
pub fn check_parameter(template: &Parameter, rule: &Parameter) -> (answer: Compatibility)
    ensures
        answer == parameter_compatibility(template@, rule@),
{
    match &template.parameter.value {
        Value::Variable(_) => match &template.specializer {
            None => Compatibility::Match,
            Some(wanted) => match &rule.specializer {
                None => match &rule.parameter.value {
                    Value::Variable(_) => Compatibility::Mismatch,
                    _ => Compatibility::Unsupported,
                },
                Some(given) => match (&rule.parameter.value, &wanted.value, &given.value) {
                    (
                        Value::Variable(_),
                        Value::Pattern(Pattern::Instance(wanted)),
                        Value::Pattern(Pattern::Instance(given)),
                    ) => if instance_pattern_accepts(wanted, given) {
                        Compatibility::Match
                    } else {
                        Compatibility::Mismatch
                    },
                    _ => Compatibility::Mismatch,
                },
            },
        },
        _ => if template.specializer.is_none() && rule.specializer.is_none() {
            if template.parameter.equals(&rule.parameter) {
                Compatibility::Match
            } else {
                Compatibility::Mismatch
            }
        } else {
            Compatibility::Mismatch
        },
    }
}

/// How many positions of `rule` are held against `template`: as many as
/// both have.
pub open spec fn compared_positions(rule: RuleView, template: RuleView) -> int {
    if rule.params.len() <= template.params.len() {
        rule.params.len() as int
    } else {
        template.params.len() as int
    }
}

/// The answer for position `i` of `rule` and `template`.
pub open spec fn position_compatibility(
    rule: RuleView,
    template: RuleView,
    i: int,
) -> Compatibility {
    parameter_compatibility(template.params[i], rule.params[i])
}

/// The answer for the positions of `rule` and `template` from `from` on: that
/// of the first position that is no match, and a match where there is none.
pub open spec fn compatibility_from(rule: RuleView, template: RuleView, from: int) -> Compatibility
    decreases compared_positions(rule, template) - from,
{
    if from < 0 || from >= compared_positions(rule, template) {
        Compatibility::Match
    } else {
        match position_compatibility(rule, template, from) {
            Compatibility::Match => compatibility_from(rule, template, from + 1),
            other => other,
        }
    }
}

/// The answer for `rule` against `template`.
pub open spec fn rule_compatibility(rule: RuleView, template: RuleView) -> Compatibility {
    compatibility_from(rule, template, 0)
}

/// Holds `rule` against `template`, position by position, and stops at the
/// first position that is no match.
pub fn check_rule(rule: &Rule, template: &Rule) -> (answer: Compatibility)
    ensures
        answer == rule_compatibility(rule@, template@),
{
    let n = if rule.params.len() <= template.params.len() {
        rule.params.len()
    } else {
        template.params.len()
    };
    let mut i: usize = 0;
    while i < n
        invariant
            i <= n,
            n == compared_positions(rule@, template@),
            rule_compatibility(rule@, template@) == compatibility_from(rule@, template@, i as int),
        decreases n - i,
    {
        let answer = check_parameter(&template.params[i], &rule.params[i]);
        match answer {
            Compatibility::Match => {},
            _ => {
                return answer;
            },
        }
        i += 1;
    }
    Compatibility::Match
}

/// A template applies to a rule of the same name and the same number of
/// parameters.
pub open spec fn applies_to(template: RuleView, rule: RuleView) -> bool {
    template.name == rule.name && template.params.len() == rule.params.len()
}

/// `templates[i]` exists, applies to `rule` and gives the answer `answer`.
pub open spec fn answer_at(
    rule: RuleView,
    templates: Seq<RuleView>,
    i: int,
    answer: Compatibility,
) -> bool {
    &&& 0 <= i < templates.len()
    &&& applies_to(templates[i], rule)
    &&& rule_compatibility(rule, templates[i]) == answer
}

/// Some template applies to `rule`.
pub open spec fn has_applicable_template(rule: RuleView, templates: Seq<RuleView>) -> bool {
    exists|i: int, answer: Compatibility| answer_at(rule, templates, i, answer)
}

/// Some template that applies to `rule` is compatible with it.
pub open spec fn has_matching_template(rule: RuleView, templates: Seq<RuleView>) -> bool {
    exists|i: int| answer_at(rule, templates, i, Compatibility::Match)
}

/// The comparison of `rule` with some template that applies to it is not
/// supported.
pub open spec fn has_unsupported_template(rule: RuleView, templates: Seq<RuleView>) -> bool {
    exists|i: int| answer_at(rule, templates, i, Compatibility::Unsupported)
}

/// A rule may join the rules of a scope with the templates `templates` when
/// no template applies to it, or when one that does is compatible with it.
pub open spec fn rule_allowed(rule: RuleView, templates: Seq<RuleView>) -> bool {
    !has_applicable_template(rule, templates) || has_matching_template(rule, templates)
}

/// What the templates of a scope say of a rule.
pub open spec fn templates_verdict(rule: RuleView, templates: Seq<RuleView>) -> Compatibility {
    if has_unsupported_template(rule, templates) {
        Compatibility::Unsupported
    } else if rule_allowed(rule, templates) {
        Compatibility::Match
    } else {
        Compatibility::Mismatch
    }
}

/// Holds `rule` against every template that applies to it.
pub fn check_templates(rule: &Rule, templates: &Vec<Rule>) -> (verdict: Compatibility)
    ensures
        verdict == templates_verdict(rule@, rules_view(templates@)),
{
    let ghost views = rules_view(templates@);
    let mut applicable = false;
    let mut matched = false;
    let mut i: usize = 0;
    while i < templates.len()
        invariant
            i <= templates.len(),
            views == rules_view(templates@),
            views.len() == templates.len(),
            forall|j: int| 0 <= j < i ==> !answer_at(rule@, views, j, Compatibility::Unsupported),
            applicable <==> exists|j: int, answer: Compatibility|
                0 <= j < i && answer_at(rule@, views, j, answer),
            matched <==> exists|j: int|
                0 <= j < i && answer_at(rule@, views, j, Compatibility::Match),
        decreases templates.len() - i,
    {
        let template = &templates[i];
        if template.name.equals(&rule.name) && template.params.len() == rule.params.len() {
            let answer = check_rule(rule, template);
            assert(answer_at(rule@, views, i as int, answer));
            match answer {
                Compatibility::Unsupported => {
                    return Compatibility::Unsupported;
                },
                Compatibility::Match => {
                    applicable = true;
                    matched = true;
                },
                Compatibility::Mismatch => {
                    applicable = true;
                },
            }
        }
        i += 1;
    }
    if applicable && !matched {
        Compatibility::Mismatch
    } else {
        Compatibility::Match
    }
}

/// Where the template has a variable without a specializer, every parameter
/// of a rule is a match, whatever its term and its specializer.
pub proof fn lemma_unconstrained_position_matches(template: ParameterView, rule: ParameterView)
    requires
        template.parameter is Variable,
        template.specializer is None,
    ensures
        parameter_compatibility(template, rule) is Match,
{
}

/// Where the template has a variable with an instance pattern, a rule whose
/// instance pattern names another tag is no match.
pub proof fn lemma_other_tag_is_no_match(
    template: ParameterView,
    rule: ParameterView,
    wanted: InstanceView,
    given: InstanceView,
)
    requires
        template.parameter is Variable,
        template.specializer == Some(TermView::Pattern(PatternView::Instance(wanted))),
        rule.specializer == Some(TermView::Pattern(PatternView::Instance(given))),
        wanted.tag != given.tag,
    ensures
        parameter_compatibility(template, rule) is Mismatch,
{
}

/// Where the template has a variable with an instance pattern, a rule whose
/// instance pattern names the same tag and leaves out a field that the
/// template constrains, or constrains it to another term, is no match.
pub proof fn lemma_missing_field_is_no_match(
    template: ParameterView,
    rule: ParameterView,
    wanted: InstanceView,
    given: InstanceView,
    field: Seq<char>,
)
    requires
        template.parameter is Variable,
        template.specializer == Some(TermView::Pattern(PatternView::Instance(wanted))),
        rule.specializer == Some(TermView::Pattern(PatternView::Instance(given))),
        wanted.tag == given.tag,
        wanted.fields.contains_key(field),
        !given.fields.contains_key(field) || given.fields[field] != wanted.fields[field],
    ensures
        parameter_compatibility(template, rule) is Mismatch,
{
}

/// Where the template has a variable with an instance pattern, a rule with a
/// variable and an instance pattern of the same tag that constrains every
/// field of the template to an equal term is a match, whatever other fields
/// it constrains.
pub proof fn lemma_more_fields_still_match(
    template: ParameterView,
    rule: ParameterView,
    wanted: InstanceView,
    given: InstanceView,
)
    requires
        template.parameter is Variable,
        template.specializer == Some(TermView::Pattern(PatternView::Instance(wanted))),
        rule.parameter is Variable,
        rule.specializer == Some(TermView::Pattern(PatternView::Instance(given))),
        wanted.tag == given.tag,
        forall|field: Seq<char>| #[trigger]
            wanted.fields.contains_key(field) ==> given.fields.contains_key(field)
                && given.fields[field] == wanted.fields[field],
    ensures
        parameter_compatibility(template, rule) is Match,
{
}

/// Two terms that are no variables, without specializers, match exactly when
/// they are equal.
pub proof fn lemma_concrete_values_match_iff_equal(template: ParameterView, rule: ParameterView)
    requires
        !(template.parameter is Variable),
        !(rule.parameter is Variable),
        template.specializer is None,
        rule.specializer is None,
    ensures
        parameter_compatibility(template, rule) is Match <==> template.parameter == rule.parameter,
{
}

/// Where the template has a term that is no variable, a rule with another
/// term is no match, with or without specializers.
pub proof fn lemma_unequal_values_are_no_match(template: ParameterView, rule: ParameterView)
    requires
        !(template.parameter is Variable),
        template.parameter != rule.parameter,
    ensures
        parameter_compatibility(template, rule) is Mismatch,
{
}

/// A parameter that is held against itself is a match unless it carries a
/// specializer without being a variable with an instance pattern.
pub open spec fn matches_itself(p: ParameterView) -> bool {
    match p.specializer {
        None => true,
        Some(specializer) => p.parameter is Variable && specializer matches TermView::Pattern(
            PatternView::Instance(_),
        ),
    }
}

/// A parameter matches itself exactly when [`matches_itself`] says so.
pub proof fn lemma_parameter_against_itself(p: ParameterView)
    ensures
        parameter_compatibility(p, p) is Match <==> matches_itself(p),
{
}

/// A rule is compatible with a template exactly when every compared
/// position is a match.
pub proof fn lemma_compatible_iff_every_position_matches(rule: RuleView, template: RuleView)
    ensures
        rule_compatibility(rule, template) is Match <==> forall|i: int|
            0 <= i < compared_positions(rule, template) ==> position_compatibility(
                rule,
                template,
                i,
            ) is Match,
{
    lemma_match_from(rule, template, 0);
}

/// From `from` on the answer is a match exactly when every position from
/// `from` on is one.
proof fn lemma_match_from(rule: RuleView, template: RuleView, from: int)
    requires
        0 <= from,
    ensures
        compatibility_from(rule, template, from) is Match <==> forall|i: int|
            from <= i < compared_positions(rule, template) ==> position_compatibility(
                rule,
                template,
                i,
            ) is Match,
    decreases compared_positions(rule, template) - from,
{
    if from < compared_positions(rule, template) {
        lemma_match_from(rule, template, from + 1);
    }
}

/// A template is compatible with itself, provided that each of its
/// parameters is one that matches itself; and only then.
pub proof fn lemma_template_against_itself(template: RuleView)
    ensures
        rule_compatibility(template, template) is Match <==> forall|i: int|
            0 <= i < template.params.len() ==> matches_itself(#[trigger] template.params[i]),
{
    lemma_compatible_iff_every_position_matches(template, template);
    assert forall|i: int| 0 <= i < template.params.len() implies (position_compatibility(
        template,
        template,
        i,
    ) is Match <==> matches_itself(template.params[i])) by {
        lemma_parameter_against_itself(template.params[i]);
    }
}

/// Position `i` is unsupported, and the positions from `from` up to it are
/// matches.
pub open spec fn stops_unsupported_at(
    rule: RuleView,
    template: RuleView,
    from: int,
    i: int,
) -> bool {
    &&& from <= i < compared_positions(rule, template)
    &&& position_compatibility(rule, template, i) is Unsupported
    &&& forall|j: int| from <= j < i ==> position_compatibility(rule, template, j) is Match
}

/// The answer is "unsupported" exactly when some compared position is
/// unsupported and every position before it is a match.
pub proof fn lemma_unsupported_iff_first_failure_is(rule: RuleView, template: RuleView)
    ensures
        rule_compatibility(rule, template) is Unsupported <==> exists|i: int|
            stops_unsupported_at(rule, template, 0, i),
{
    lemma_unsupported_from(rule, template, 0);
}

/// From `from` on the answer is "unsupported" exactly when some position from
/// `from` on is unsupported and the positions between are matches.
proof fn lemma_unsupported_from(rule: RuleView, template: RuleView, from: int)
    requires
        0 <= from,
    ensures
        compatibility_from(rule, template, from) is Unsupported <==> exists|i: int|
            stops_unsupported_at(rule, template, from, i),
    decreases compared_positions(rule, template) - from,
{
    let n = compared_positions(rule, template);
    let next = from + 1;
    if from < n {
        lemma_unsupported_from(rule, template, next);
        match position_compatibility(rule, template, from) {
            Compatibility::Match => {
                if compatibility_from(rule, template, next) is Unsupported {
                    let i = choose|i: int| stops_unsupported_at(rule, template, next, i);
                    assert(stops_unsupported_at(rule, template, from, i));
                }
                if exists|i: int| stops_unsupported_at(rule, template, from, i) {
                    let i = choose|i: int| stops_unsupported_at(rule, template, from, i);
                    assert(stops_unsupported_at(rule, template, next, i));
                }
            },
            Compatibility::Mismatch => {},
            Compatibility::Unsupported => {
                assert(stops_unsupported_at(rule, template, from, from));
            },
        }
    }
}

/// Where there is no template, every rule is allowed.
pub proof fn lemma_no_template_allows(rule: RuleView)
    ensures
        templates_verdict(rule, Seq::empty()) is Match,
{
}

/// The templates named `name` among `templates`, in their order.
pub open spec fn templates_named(templates: Seq<RuleView>, name: Seq<char>) -> Seq<RuleView> {
    templates.filter(|template: RuleView| template.name == name)
}

/// Only the templates of a rule's own name have a say on it.
pub proof fn lemma_verdict_goes_by_name(rule: RuleView, templates: Seq<RuleView>)
    ensures
        templates_verdict(rule, templates_named(templates, rule.name)) == templates_verdict(
            rule,
            templates,
        ),
{
    let own = templates_named(templates, rule.name);
    lemma_answers_go_by_name(rule, templates, Compatibility::Match);
    lemma_answers_go_by_name(rule, templates, Compatibility::Mismatch);
    lemma_answers_go_by_name(rule, templates, Compatibility::Unsupported);
    assert(has_applicable_template(rule, own) == has_applicable_template(rule, templates)) by {
        if has_applicable_template(rule, templates) {
            let (i, answer) = choose|i: int, answer: Compatibility|
                answer_at(rule, templates, i, answer);
            let j = choose|j: int| answer_at(rule, own, j, answer);
            assert(answer_at(rule, own, j, answer));
        }
        if has_applicable_template(rule, own) {
            let (j, answer) = choose|j: int, answer: Compatibility| answer_at(rule, own, j, answer);
            let i = choose|i: int| answer_at(rule, templates, i, answer);
            assert(answer_at(rule, templates, i, answer));
        }
    }
}

/// A template of the rule's name gives an answer among all templates exactly
/// when it gives that answer among the templates of the rule's name.
proof fn lemma_answers_go_by_name(rule: RuleView, templates: Seq<RuleView>, answer: Compatibility)
    ensures
        (exists|i: int| answer_at(rule, templates, i, answer)) <==> (exists|j: int|
            answer_at(rule, templates_named(templates, rule.name), j, answer)),
{
    let named = |template: RuleView| template.name == rule.name;
    let own = templates_named(templates, rule.name);
    if exists|i: int| answer_at(rule, templates, i, answer) {
        let i = choose|i: int| answer_at(rule, templates, i, answer);
        templates.lemma_filter_contains(named, i);
        let j = choose|j: int| 0 <= j < own.len() && own[j] == templates[i];
        assert(answer_at(rule, own, j, answer));
    }
    if exists|j: int| answer_at(rule, own, j, answer) {
        let j = choose|j: int| answer_at(rule, own, j, answer);
        templates.lemma_filter_contains_rev(named, own[j]);
        let i = choose|i: int| 0 <= i < templates.len() && templates[i] == own[j];
        assert(answer_at(rule, templates, i, answer));
    }
}

} // verus!
