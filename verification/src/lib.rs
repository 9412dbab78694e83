//! Kernel of a natural-deduction proof assistant.
//!
//! The crate models propositional formulas, matches them against rule
//! schemas built from metavariable patterns, validates the rule catalog
//! with a truth-table oracle, and keeps a proof document as a tree of
//! premises, justified lines and nested subproofs addressed through
//! stable references.

pub mod expr;
pub mod matcher;
pub mod oracle;
pub mod catalog;
pub mod rules;
pub mod tree;
