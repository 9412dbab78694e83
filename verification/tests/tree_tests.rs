use aris::expr::Expr;
use aris::rules::RuleId;
use aris::tree::{
    new_empty_step, DepRef, LineActionKind, LineItem, PjRef, ProofItemKind, ProofTree,
};

/// A new document holds one default premise and one default step.
#[test]
fn new_document_shape() {
    let t = ProofTree::new();
    let root = t.root_ref();
    let prems = t.premises_of(root).expect("root is live");
    let lines = t.lines_of(root).expect("root is live");
    assert_eq!(prems.len(), 1);
    assert_eq!(lines.len(), 1);
    assert!(matches!(lines[0], LineItem::Just(_)));
}

/// Reference stability: inserting and deleting unrelated sibling lines
/// leaves the lookup result of every other reference unchanged.
#[test]
fn references_survive_unrelated_edits() {
    let mut t = ProofTree::new();
    let a = t.add_premise(Expr::var("A"));
    let b = t.add_premise(Expr::var("B"));
    let j = t.prepend_step(new_empty_step());
    assert!(t.lookup_premise(a).unwrap().eq_expr(&Expr::var("A")));
    // insert a sibling premise beside `a`
    let c = t.add_premise_relative(Expr::var("C"), a, true).expect("a is live");
    assert!(t.lookup_premise(a).unwrap().eq_expr(&Expr::var("A")));
    assert!(t.lookup_premise(b).unwrap().eq_expr(&Expr::var("B")));
    assert!(t.lookup_justification(j).is_some());
    // delete the inserted sibling again
    assert!(t.remove_line(PjRef::Prem(c)));
    assert!(t.lookup_premise(c).is_none());
    assert!(t.lookup_premise(a).unwrap().eq_expr(&Expr::var("A")));
    assert!(t.lookup_premise(b).unwrap().eq_expr(&Expr::var("B")));
    assert!(t.lookup_justification(j).is_some());
}

/// Premise-removal guard: the last top-level premise stays; with two,
/// one can go and exactly one remains.
#[test]
fn premise_removal_guard() {
    let mut t = ProofTree::new();
    let root = t.root_ref();
    let first = t.premises_of(root).unwrap()[0];
    assert!(!t.may_remove_line(PjRef::Prem(first)));
    assert!(!t.remove_line(PjRef::Prem(first)));
    assert!(t.lookup_premise(first).is_some());
    assert_eq!(t.premises_of(root).unwrap().len(), 1);
    let second = t.add_premise(Expr::var("B"));
    assert!(t.may_remove_line(PjRef::Prem(first)));
    assert!(t.remove_line(PjRef::Prem(first)));
    assert!(t.lookup_premise(first).is_none());
    assert!(t.lookup_premise(second).is_some());
    assert_eq!(t.premises_of(root).unwrap().len(), 1);
}

/// A subproof's own premises are structural: they cannot be removed
/// one by one.
#[test]
fn subproof_premises_are_not_removable() {
    let mut t = ProofTree::new();
    let root = t.root_ref();
    let at = t.lines_of(root).unwrap()[0];
    let sub = t.add_subproof_relative(at, true).expect("anchor is live");
    let inner = t.premises_of(sub).unwrap()[0];
    assert!(!t.may_remove_line(PjRef::Prem(inner)));
    assert!(!t.remove_line(PjRef::Prem(inner)));
    assert!(t.lookup_premise(inner).is_some());
}

/// Cascading delete: removing a subproof makes every reference inside
/// it resolve to nothing, and the root cannot be removed.
#[test]
fn cascading_delete() {
    let mut t = ProofTree::new();
    let root = t.root_ref();
    let at = t.lines_of(root).unwrap()[0];
    let sub = t.add_subproof_relative(at, true).expect("anchor is live");
    // fill the subproof with nested content
    let inner_prem = t.premises_of(sub).unwrap()[0];
    let inner_line = t.lines_of(sub).unwrap()[0];
    let inner_just = match inner_line {
        LineItem::Just(j) => j,
        LineItem::Sub(_) => panic!("expected a step"),
    };
    let extra = t
        .add_step_relative(new_empty_step(), inner_line, true)
        .expect("inner line is live");
    let nested = t.add_subproof_relative(inner_line, true).expect("inner line is live");
    let nested_prem = t.premises_of(nested).unwrap()[0];
    assert!(!t.remove_subproof(root));
    assert!(t.remove_subproof(sub));
    assert!(t.lookup_premise(inner_prem).is_none());
    assert!(t.lookup_justification(inner_just).is_none());
    assert!(t.lookup_justification(extra).is_none());
    assert!(t.premises_of(nested).is_none());
    assert!(t.lookup_premise(nested_prem).is_none());
    assert!(t.premises_of(sub).is_none());
    // the rest of the document is untouched
    assert!(t.premises_of(root).is_some());
    assert_eq!(t.lines_of(root).unwrap().len(), 1);
}

/// Line content edits: expression, rule and dependency toggling.
#[test]
fn content_edits() {
    let mut t = ProofTree::new();
    let root = t.root_ref();
    let p = t.premises_of(root).unwrap()[0];
    let j = match t.lines_of(root).unwrap()[0] {
        LineItem::Just(j) => j,
        LineItem::Sub(_) => panic!("expected a step"),
    };
    assert!(t.set_premise_expr(p, Expr::var("A")));
    assert!(t.lookup_premise(p).unwrap().eq_expr(&Expr::var("A")));
    assert!(t.set_step_expr(j, Expr::var("B")));
    assert!(t.set_step_rule(j, RuleId::DoubleNegation));
    let just = t.lookup_justification(j).unwrap();
    assert!(just.expr.eq_expr(&Expr::var("B")));
    assert_eq!(just.rule, RuleId::DoubleNegation);
    // toggling a dependency twice returns to the starting state
    assert!(t.toggle_line_dep(j, PjRef::Prem(p)));
    assert_eq!(t.lookup_justification(j).unwrap().line_deps, vec![PjRef::Prem(p)]);
    assert!(t.toggle_line_dep(j, PjRef::Prem(p)));
    assert!(t.lookup_justification(j).unwrap().line_deps.is_empty());
}

/// Visibility: a step may cite an earlier top-level premise or a
/// closed sibling subproof, never a line inside one.
#[test]
fn dependency_visibility() {
    let mut t = ProofTree::new();
    let root = t.root_ref();
    let p = t.premises_of(root).unwrap()[0];
    let first_line = t.lines_of(root).unwrap()[0];
    let sub = t.add_subproof_relative(first_line, false).expect("anchor is live");
    let inner_prem = t.premises_of(sub).unwrap()[0];
    let j = match first_line {
        LineItem::Just(j) => j,
        LineItem::Sub(_) => panic!("expected a step"),
    };
    // the step follows the subproof, so the subproof is closed for it
    assert!(t.can_reference_dep(PjRef::Just(j), DepRef::Line(PjRef::Prem(p))));
    assert!(t.can_reference_dep(PjRef::Just(j), DepRef::Sub(sub)));
    assert!(!t.can_reference_dep(PjRef::Just(j), DepRef::Line(PjRef::Prem(inner_prem))));
    // a premise cites nothing
    assert!(!t.can_reference_dep(PjRef::Prem(p), DepRef::Line(PjRef::Prem(p))));
    // a line never cites itself or later lines
    assert!(!t.can_reference_dep(PjRef::Just(j), DepRef::Line(PjRef::Just(j))));
}

/// parent_of_line distinguishes top-level lines from nested ones.
#[test]
fn parent_of_line_reports_nesting() {
    let mut t = ProofTree::new();
    let root = t.root_ref();
    let p = t.premises_of(root).unwrap()[0];
    assert_eq!(t.parent_of_line(PjRef::Prem(p)), None);
    let at = t.lines_of(root).unwrap()[0];
    let sub = t.add_subproof_relative(at, true).expect("anchor is live");
    let inner = t.premises_of(sub).unwrap()[0];
    assert_eq!(t.parent_of_line(PjRef::Prem(inner)), Some(sub));
}

/// Document order: premises first, then lines, nested subproof content
/// one level deeper.
#[test]
fn document_order_with_depth() {
    let mut t = ProofTree::new();
    let root = t.root_ref();
    let p = t.premises_of(root).unwrap()[0];
    let first_line = t.lines_of(root).unwrap()[0];
    let sub = t.add_subproof_relative(first_line, false).expect("anchor is live");
    let inner_prem = t.premises_of(sub).unwrap()[0];
    let listing = t.lines_in_order();
    // premise, then the subproof's premise and step, then the step
    assert_eq!(listing.len(), 4);
    assert_eq!(listing[0], (PjRef::Prem(p), 0));
    assert_eq!(listing[1], (PjRef::Prem(inner_prem), 1));
    assert_eq!(listing[1].1, 1);
    assert_eq!(listing[2].1, 1);
    assert_eq!(listing[3], (first_line_to_pj(first_line), 0));
}

fn first_line_to_pj(item: LineItem) -> PjRef {
    match item {
        LineItem::Just(j) => PjRef::Just(j),
        LineItem::Sub(_) => panic!("expected a step"),
    }
}

/// Line actions dispatch to the corresponding edits, and refused
/// actions leave the document unchanged.
#[test]
fn line_actions() {
    let mut t = ProofTree::new();
    let root = t.root_ref();
    let p = t.premises_of(root).unwrap()[0];
    let j = first_line_to_pj(t.lines_of(root).unwrap()[0]);
    // a rule edit addressed to a justification
    assert_eq!(
        t.apply_line_action(LineActionKind::SetRule { rule: RuleId::DoubleNegation }, j),
        None
    );
    let jr = match j {
        PjRef::Just(jr) => jr,
        _ => unreachable!(),
    };
    assert_eq!(t.lookup_justification(jr).unwrap().rule, RuleId::DoubleNegation);
    // a dependency toggle
    t.apply_line_action(LineActionKind::ToggleLineDep { dep: PjRef::Prem(p) }, j);
    assert_eq!(t.lookup_justification(jr).unwrap().line_deps, vec![PjRef::Prem(p)]);
    // inserting a step after the step
    let created = t.apply_line_action(
        LineActionKind::Insert {
            what: ProofItemKind::Just,
            after: true,
            relative_to: ProofItemKind::Just,
        },
        j,
    );
    assert!(matches!(created, Some(PjRef::Just(_))));
    assert_eq!(t.lines_of(root).unwrap().len(), 2);
    // inserting a subproof relative to a premise is refused
    assert_eq!(
        t.apply_line_action(
            LineActionKind::Insert {
                what: ProofItemKind::Subproof,
                after: true,
                relative_to: ProofItemKind::Just,
            },
            PjRef::Prem(p),
        ),
        None
    );
    // deleting the last premise is refused
    t.apply_line_action(LineActionKind::Delete { what: ProofItemKind::Premise }, PjRef::Prem(p));
    assert!(t.lookup_premise(p).is_some());
}
