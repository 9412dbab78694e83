use aris::catalog::{
    rule_annihilation, rule_bicond_reduction, rule_biconditional_association,
    rule_biconditional_commutation, rule_biconditional_complement,
    rule_biconditional_equivalence, rule_biconditional_identity, rule_biconditional_negation,
    rule_biconditional_reduction, rule_biconditional_substitution, rule_cond_reduction,
    rule_conditional_absorption, rule_conditional_annihilation, rule_conditional_complement,
    rule_conditional_contraposition, rule_conditional_distribution, rule_conditional_exportation,
    rule_conditional_identity, rule_conditional_idempotence, rule_conditional_implication,
    rule_conditional_reduction, rule_conjunction, rule_disjunction, rule_distribution,
    rule_double_negation, rule_identity, rule_inverse, rule_knights_and_knaves, rule_negation,
};
use aris::expr::Expr;
use aris::oracle::{check_clause, check_rule};

/// Brute-force truth tables over every clause of every equivalence
/// schema: both sides must evaluate identically under every joint
/// assignment of the inferred metavariable tables.
#[test]
fn bruteforce_equivalence_truthtables() {
    let rules = vec![
        rule_double_negation(),
        rule_distribution(),
        rule_identity(),
        rule_annihilation(),
        rule_inverse(),
        rule_conditional_absorption(),
        rule_conditional_annihilation(),
        rule_conditional_implication(),
        rule_conditional_contraposition(),
        rule_conditional_exportation(),
        rule_conditional_complement(),
        rule_conditional_identity(),
        rule_conditional_distribution(),
        rule_conditional_reduction(),
        rule_knights_and_knaves(),
        rule_conditional_idempotence(),
        rule_biconditional_association(),
        rule_biconditional_commutation(),
        rule_biconditional_reduction(),
        rule_biconditional_complement(),
        rule_biconditional_identity(),
        rule_biconditional_equivalence(),
        rule_biconditional_negation(),
        rule_biconditional_substitution(),
    ];
    for rule in &rules {
        assert!(check_rule(rule), "oracle rejected {}", rule.name);
    }
}

#[test]
fn remaining_catalog_rules_pass_the_oracle() {
    for rule in [
        rule_conjunction(),
        rule_disjunction(),
        rule_negation(),
        rule_bicond_reduction(),
        rule_cond_reduction(),
    ] {
        assert!(check_rule(&rule), "oracle rejected {}", rule.name);
    }
}

#[test]
fn oracle_rejects_a_non_equivalence() {
    // phi and ~phi are not truth-functionally equivalent
    let lhs = Expr::var("phi");
    let rhs = Expr::not(Expr::var("phi"));
    assert_eq!(check_clause(&lhs, &rhs), Some(false));
}

#[test]
fn oracle_accepts_a_trivial_equivalence() {
    let lhs = Expr::var("phi");
    let rhs = Expr::not(Expr::not(Expr::var("phi")));
    assert_eq!(check_clause(&lhs, &rhs), Some(true));
}

#[test]
fn oracle_refuses_an_arity_conflict() {
    // S used with one argument on the left and bare on the right
    let lhs = Expr::app1("S", Expr::var("phi"));
    let rhs = Expr::var("S");
    assert_eq!(check_clause(&lhs, &rhs), None);
}
