//! The knowledge base of a rule engine: named scopes that hold constants,
//! rule templates and rules; the check that decides whether a rule has the
//! shape that a template of its scope asks for; and the counters that number
//! identifiers and generated symbols.
//!
//! Every function of the crate is verified against its contract. The
//! contracts speak of views: a name is a sequence of characters, a term is a
//! [`terms::TermView`], a scope is a [`kb::ScopeView`], and a knowledge base
//! is a map from the names of its scopes to what they hold.

pub mod assoc;
pub mod compat;
pub mod counter;
pub mod error;
pub mod gensym;
pub mod kb;
pub mod rules;
pub mod sources;
pub mod terms;
