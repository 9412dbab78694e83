use aris::catalog::{classification, rules_in_class, RuleTable};
use aris::expr::Expr;
use aris::rules::{RuleClassification, RuleId};
use aris::tree::{LineItem, PjRef, ProofTree, VerificationError};

fn root_step(t: &ProofTree) -> aris::tree::JustRef {
    match t.lines_of(t.root_ref()).unwrap()[0] {
        LineItem::Just(j) => j,
        LineItem::Sub(_) => panic!("expected a step"),
    }
}

/// Double negation: from `~~Q` the step `Q` verifies; `~Q` does not.
#[test]
fn double_negation_scenario() {
    let rules = RuleTable::standard();
    let mut t = ProofTree::new();
    let p = t.premises_of(t.root_ref()).unwrap()[0];
    let j = root_step(&t);
    assert!(t.set_premise_expr(p, Expr::not(Expr::not(Expr::var("Q")))));
    assert!(t.set_step_expr(j, Expr::var("Q")));
    assert!(t.set_step_rule(j, RuleId::DoubleNegation));
    assert!(t.toggle_line_dep(j, PjRef::Prem(p)));
    assert_eq!(t.verify_line(&rules, PjRef::Just(j)), Ok(()));
    // premises are axiomatic
    assert_eq!(t.verify_line(&rules, PjRef::Prem(p)), Ok(()));
    // the wrong conclusion is rejected
    assert!(t.set_step_expr(j, Expr::not(Expr::var("Q"))));
    assert_eq!(
        t.verify_line(&rules, PjRef::Just(j)),
        Err(VerificationError::WrongRule)
    );
}

/// Conditional implication: from `P -> Q` the step `~P | Q` verifies;
/// `P | Q` does not.
#[test]
fn conditional_implication_scenario() {
    let rules = RuleTable::standard();
    let mut t = ProofTree::new();
    let p = t.premises_of(t.root_ref()).unwrap()[0];
    let j = root_step(&t);
    assert!(t.set_premise_expr(p, Expr::implies(Expr::var("P"), Expr::var("Q"))));
    assert!(t.set_step_expr(j, Expr::or(Expr::not(Expr::var("P")), Expr::var("Q"))));
    assert!(t.set_step_rule(j, RuleId::ConditionalImplication));
    assert!(t.toggle_line_dep(j, PjRef::Prem(p)));
    assert_eq!(t.verify_line(&rules, PjRef::Just(j)), Ok(()));
    assert!(t.set_step_expr(j, Expr::or(Expr::var("P"), Expr::var("Q"))));
    assert_eq!(
        t.verify_line(&rules, PjRef::Just(j)),
        Err(VerificationError::WrongRule)
    );
}

/// Biconditional substitution: from `P <-> Q` and `P & R`, the step
/// `(P <-> Q) & (Q & R)` verifies (context `_ & R` applied to `psi`);
/// `(P <-> Q) & (Q & S)` does not.
#[test]
fn biconditional_substitution_scenario() {
    let rules = RuleTable::standard();
    let mut t = ProofTree::new();
    let p0 = t.premises_of(t.root_ref()).unwrap()[0];
    let j = root_step(&t);
    assert!(t.set_premise_expr(p0, Expr::iff(Expr::var("P"), Expr::var("Q"))));
    let p1 = t.add_premise(Expr::and(Expr::var("P"), Expr::var("R")));
    assert!(t.set_step_expr(
        j,
        Expr::and(
            Expr::iff(Expr::var("P"), Expr::var("Q")),
            Expr::and(Expr::var("Q"), Expr::var("R")),
        )
    ));
    assert!(t.set_step_rule(j, RuleId::BiconditionalSubstitution));
    assert!(t.toggle_line_dep(j, PjRef::Prem(p0)));
    assert!(t.toggle_line_dep(j, PjRef::Prem(p1)));
    assert_eq!(t.verify_line(&rules, PjRef::Just(j)), Ok(()));
    assert!(t.set_step_expr(
        j,
        Expr::and(
            Expr::iff(Expr::var("P"), Expr::var("Q")),
            Expr::and(Expr::var("Q"), Expr::var("S")),
        )
    ));
    assert_eq!(
        t.verify_line(&rules, PjRef::Just(j)),
        Err(VerificationError::WrongRule)
    );
}

/// The specific failure reasons: a dangling line, an invisible
/// dependency, a subproof citation, and the placeholder rule.
#[test]
fn failure_reasons() {
    let rules = RuleTable::standard();
    let mut t = ProofTree::new();
    let p = t.premises_of(t.root_ref()).unwrap()[0];
    let j = root_step(&t);
    // the placeholder rule licenses nothing
    assert!(t.toggle_line_dep(j, PjRef::Prem(p)));
    assert_eq!(
        t.verify_line(&rules, PjRef::Just(j)),
        Err(VerificationError::WrongRule)
    );
    assert!(t.toggle_line_dep(j, PjRef::Prem(p)));
    // a dependency inside a sibling subproof is invisible
    let sub = t
        .add_subproof_relative(LineItem::Just(j), false)
        .expect("anchor is live");
    let inner = t.premises_of(sub).unwrap()[0];
    assert!(t.set_step_rule(j, RuleId::DoubleNegation));
    assert!(t.toggle_line_dep(j, PjRef::Prem(inner)));
    assert_eq!(
        t.verify_line(&rules, PjRef::Just(j)),
        Err(VerificationError::BadDependency)
    );
    assert!(t.toggle_line_dep(j, PjRef::Prem(inner)));
    // a cited subproof is not a premise the equivalence rules accept
    assert!(t.toggle_sub_dep(j, sub));
    assert_eq!(
        t.verify_line(&rules, PjRef::Just(j)),
        Err(VerificationError::WrongRule)
    );
    assert!(t.toggle_sub_dep(j, sub));
    // a removed line is not found
    assert!(t.remove_line(PjRef::Just(j)));
    assert_eq!(
        t.verify_line(&rules, PjRef::Just(j)),
        Err(VerificationError::LineNotFound)
    );
}

/// The catalog lookup: every named rule is present, the placeholder is
/// not.
#[test]
fn catalog_lookup() {
    let rules = RuleTable::standard();
    assert!(rules.get(RuleId::DoubleNegation).is_some());
    assert!(rules.get(RuleId::BiconditionalSubstitution).is_some());
    assert!(rules.get(RuleId::Empty).is_none());
    assert_eq!(
        rules.get(RuleId::DoubleNegation).unwrap().name,
        "DOUBLE_NEGATION"
    );
}

/// The catalog partitions into its three classification groups.
#[test]
fn catalog_classification() {
    assert_eq!(
        classification(RuleId::DoubleNegation),
        Some(RuleClassification::BooleanEquivalence)
    );
    assert_eq!(
        classification(RuleId::ConditionalImplication),
        Some(RuleClassification::ConditionalEquivalence)
    );
    assert_eq!(
        classification(RuleId::BiconditionalSubstitution),
        Some(RuleClassification::BiconditionalEquivalence)
    );
    assert_eq!(classification(RuleId::Empty), None);
    let boolean = rules_in_class(RuleClassification::BooleanEquivalence);
    assert_eq!(boolean.len(), 8);
    assert!(boolean.contains(&RuleId::DoubleNegation));
    let conditional = rules_in_class(RuleClassification::ConditionalEquivalence);
    assert_eq!(conditional.len(), 12);
    let biconditional = rules_in_class(RuleClassification::BiconditionalEquivalence);
    assert_eq!(biconditional.len(), 9);
    for id in boolean.iter().chain(conditional.iter()).chain(biconditional.iter()) {
        assert!(classification(*id).is_some());
    }
}
