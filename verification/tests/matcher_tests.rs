use aris::catalog::rule_double_negation;
use aris::expr::Expr;
use aris::matcher::{abstract_out, ctx_apply, instantiate, match_at, Bindings};

fn imp(l: Expr, r: Expr) -> Expr {
    Expr::implies(l, r)
}

/// Binding consistency: `phi -> phi` matches `P -> P` but not `P -> Q`.
#[test]
fn repeated_metavariable_must_bind_consistently() {
    let pattern = imp(Expr::var("phi"), Expr::var("phi"));
    let same = imp(Expr::var("P"), Expr::var("P"));
    let different = imp(Expr::var("P"), Expr::var("Q"));
    assert!(match_at(&pattern, &same, Bindings::empty()).is_some());
    assert!(match_at(&pattern, &different, Bindings::empty()).is_none());
}

/// A bare metavariable matches any subexpression.
#[test]
fn bare_metavariable_matches_anything() {
    let pattern = Expr::var("phi");
    let candidate = Expr::and(Expr::var("A"), Expr::not(Expr::var("B")));
    let b = match_at(&pattern, &candidate, Bindings::empty()).expect("should match");
    let bound = instantiate(&pattern, &b).expect("phi is bound");
    assert!(bound.eq_expr(&candidate));
}

/// Matching is purely syntactic: `P & Q` does not match pattern `Q & P`
/// instantiated the other way round, and atoms only match themselves.
#[test]
fn no_normalization_is_applied() {
    let pattern = Expr::and(Expr::var("phi"), Expr::Taut);
    assert!(match_at(&pattern, &Expr::and(Expr::var("P"), Expr::Taut), Bindings::empty()).is_some());
    assert!(match_at(&pattern, &Expr::and(Expr::Taut, Expr::var("P")), Bindings::empty()).is_none());
    assert!(match_at(&Expr::Taut, &Expr::Contra, Bindings::empty()).is_none());
}

/// Match/instantiate round trip on the double-negation clause: match
/// the left side, instantiate the right side, and the result is the
/// stripped expression.
#[test]
fn match_then_instantiate_round_trip() {
    let rule = rule_double_negation();
    let (lhs, rhs) = &rule.reductions[0];
    let candidate = Expr::not(Expr::not(Expr::and(Expr::var("A"), Expr::var("B"))));
    let b = match_at(lhs, &candidate, Bindings::empty()).expect("~~P matches ~~(A & B)");
    let out = instantiate(rhs, &b).expect("P is bound");
    assert!(out.eq_expr(&Expr::and(Expr::var("A"), Expr::var("B"))));
    // and the whole rule accepts the rewrite as a step
    assert!(rule.applies(&out, &vec![candidate]));
}

/// Context extraction: abstracting `P` out of `P & R` leaves the
/// context `_ & R`, and filling the hole with `Q` gives `Q & R`.
#[test]
fn context_extraction_and_application() {
    let candidate = Expr::and(Expr::var("P"), Expr::var("R"));
    let ctx = abstract_out(&candidate, &Expr::var("P"));
    assert!(ctx.eq_expr(&Expr::and(Expr::Hole, Expr::var("R"))));
    let filled = ctx_apply(&ctx, &Expr::var("Q"));
    assert!(filled.eq_expr(&Expr::and(Expr::var("Q"), Expr::var("R"))));
}

/// A functional metavariable must reuse the same context at every
/// occurrence.
#[test]
fn functional_metavariable_context_is_shared() {
    // pattern S(phi) & S(psi) with phi, psi bound to P and Q
    let pattern = Expr::and(
        Expr::app1("S", Expr::var("phi")),
        Expr::app1("S", Expr::var("psi")),
    );
    let mut b = Bindings::empty();
    b.put(&"phi".to_string(), Expr::var("P"));
    b.put(&"psi".to_string(), Expr::var("Q"));
    // P & R and Q & R share the context _ & R
    let good = Expr::and(
        Expr::and(Expr::var("P"), Expr::var("R")),
        Expr::and(Expr::var("Q"), Expr::var("R")),
    );
    // P & R and Q & T do not
    let bad = Expr::and(
        Expr::and(Expr::var("P"), Expr::var("R")),
        Expr::and(Expr::var("Q"), Expr::var("T")),
    );
    let b2 = match_at(&pattern, &good, b).expect("shared context matches");
    assert!(match_at(&pattern, &bad, b2).is_none());
}
