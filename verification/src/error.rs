//! The errors of rule registration.

use vstd::prelude::*;

verus! {

/// What can go wrong while a rule is registered.
#[derive(Clone, Debug)]
pub enum RuntimeError {
    /// The rule has the name and arity of at least one template of its scope
    /// and the shape of none of them.
    TypeError { msg: String, stack_trace: Option<String> },
    /// The comparison of the rule with a template reached a pair of
    /// parameters for which no answer is defined.
    Unsupported { msg: String },
}

impl RuntimeError {
    /// The error for a rule that no template of its scope accepts.
    pub open spec fn is_rule_not_allowed(&self) -> bool {
        &&& *self matches RuntimeError::TypeError { msg, stack_trace }
        &&& msg@ == "Rule not allowed in scope"@
        &&& stack_trace is None
    }

    /// The error for a comparison of parameters that is not supported.
    pub open spec fn is_value_match_unsupported(&self) -> bool {
        &&& *self matches RuntimeError::Unsupported { msg }
        &&& msg@ == "matching a value against a specializer is not supported"@
    }

    /// The error for a rule that no template of its scope accepts.
    pub fn rule_not_allowed() -> (e: RuntimeError)
        ensures
            e.is_rule_not_allowed(),
    {
        RuntimeError::TypeError { msg: "Rule not allowed in scope".to_owned(), stack_trace: None }
    }

    /// The error for a comparison of parameters that is not supported.
    pub fn value_match_unsupported() -> (e: RuntimeError)
        ensures
            e.is_value_match_unsupported(),
    {
        RuntimeError::Unsupported {
            msg: "matching a value against a specializer is not supported".to_owned(),
        }
    }

    /// The text that the error carries.
    pub fn message(&self) -> (text: &String)
        ensures
            text@ == match *self {
                RuntimeError::TypeError { msg, .. } => msg@,
                RuntimeError::Unsupported { msg } => msg@,
            },
    {
        match self {
            RuntimeError::TypeError { msg, .. } => msg,
            RuntimeError::Unsupported { msg } => msg,
        }
    }
}

} // verus!
