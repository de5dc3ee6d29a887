//! Interpretation of free-text bot directives found in issue and chat
//! comments: a tokenizer over untrusted text, speculative command grammars
//! with a backtracking dispatcher, a glob-based access-control evaluator for
//! label changes, and a resolver that collapses an ordered list of add/remove
//! directives into a minimal delta.

pub mod dispatch;
pub mod error;
pub mod label;
pub mod major_change;
pub mod note;
pub mod relabel;
pub mod second;
pub mod token;
