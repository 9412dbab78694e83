//! The rule catalog: the static table of equivalence schemas, built
//! once at startup and never mutated, partitioned into classification
//! groups. The truth-table oracle validates each entry semantically.

use vstd::prelude::*;

use crate::expr::BinKind;
use crate::expr::Expr;
use crate::expr::Form;
use crate::rules::RewriteRule;
use crate::rules::RuleClassification;
use crate::rules::RuleId;

verus! {

/// A bare metavariable pattern.
pub open spec fn mv(n: Seq<char>) -> Form {
    Form::App { name: n, args: Seq::<Form>::empty() }
}

/// A functional metavariable applied to one argument.
pub open spec fn capp(n: Seq<char>, a: Form) -> Form {
    Form::App { name: n, args: seq![a] }
}

/// Negation of a model formula.
pub open spec fn neg(f: Form) -> Form {
    Form::Not { inner: Box::new(f) }
}

/// Conjunction of two model formulas.
pub open spec fn conj(l: Form, r: Form) -> Form {
    Form::Bin { op: BinKind::And, left: Box::new(l), right: Box::new(r) }
}

/// Disjunction of two model formulas.
pub open spec fn disj(l: Form, r: Form) -> Form {
    Form::Bin { op: BinKind::Or, left: Box::new(l), right: Box::new(r) }
}

/// Conditional between two model formulas.
pub open spec fn cond(l: Form, r: Form) -> Form {
    Form::Bin { op: BinKind::Implies, left: Box::new(l), right: Box::new(r) }
}

/// Biconditional between two model formulas.
pub open spec fn bicond(l: Form, r: Form) -> Form {
    Form::Bin { op: BinKind::Iff, left: Box::new(l), right: Box::new(r) }
}

/// The `DOUBLE_NEGATION` schema.
pub fn rule_double_negation() -> (r: RewriteRule)
    ensures
        r.name@ == "DOUBLE_NEGATION"@,
        r@ == seq![(neg(neg(mv("P"@))), mv("P"@))],
{
    let mut reductions: Vec<(Expr, Expr)> = Vec::new();
    reductions.push((Expr::not(Expr::not(Expr::var("P"))), Expr::var("P")));
    let r = RewriteRule { name: "DOUBLE_NEGATION".to_owned(), reductions };
    proof {
        assert(r@ =~= seq![(neg(neg(mv("P"@))), mv("P"@))]);
    }
    r
}

/// The `DISTRIBUTION` schema.
pub fn rule_distribution() -> (r: RewriteRule)
    ensures
        r.name@ == "DISTRIBUTION"@,
        r@ == seq![(disj(conj(mv("P"@), mv("Q"@)), conj(mv("P"@), mv("R"@))), conj(mv("P"@), disj(mv("Q"@), mv("R"@)))), (conj(disj(mv("P"@), mv("Q"@)), disj(mv("P"@), mv("R"@))), disj(mv("P"@), conj(mv("Q"@), mv("R"@))))],
{
    let mut reductions: Vec<(Expr, Expr)> = Vec::new();
    reductions.push((Expr::or(Expr::and(Expr::var("P"), Expr::var("Q")), Expr::and(Expr::var("P"), Expr::var("R"))), Expr::and(Expr::var("P"), Expr::or(Expr::var("Q"), Expr::var("R")))));
    reductions.push((Expr::and(Expr::or(Expr::var("P"), Expr::var("Q")), Expr::or(Expr::var("P"), Expr::var("R"))), Expr::or(Expr::var("P"), Expr::and(Expr::var("Q"), Expr::var("R")))));
    let r = RewriteRule { name: "DISTRIBUTION".to_owned(), reductions };
    proof {
        assert(r@ =~= seq![(disj(conj(mv("P"@), mv("Q"@)), conj(mv("P"@), mv("R"@))), conj(mv("P"@), disj(mv("Q"@), mv("R"@)))), (conj(disj(mv("P"@), mv("Q"@)), disj(mv("P"@), mv("R"@))), disj(mv("P"@), conj(mv("Q"@), mv("R"@))))]);
    }
    r
}

/// The `IDENTITY` schema.
pub fn rule_identity() -> (r: RewriteRule)
    ensures
        r.name@ == "IDENTITY"@,
        r@ == seq![(conj(mv("phi"@), Form::Taut), mv("phi"@)), (disj(mv("phi"@), Form::Contra), mv("phi"@))],
{
    let mut reductions: Vec<(Expr, Expr)> = Vec::new();
    reductions.push((Expr::and(Expr::var("phi"), Expr::Taut), Expr::var("phi")));
    reductions.push((Expr::or(Expr::var("phi"), Expr::Contra), Expr::var("phi")));
    let r = RewriteRule { name: "IDENTITY".to_owned(), reductions };
    proof {
        assert(r@ =~= seq![(conj(mv("phi"@), Form::Taut), mv("phi"@)), (disj(mv("phi"@), Form::Contra), mv("phi"@))]);
    }
    r
}

/// The `ANNIHILATION` schema.
pub fn rule_annihilation() -> (r: RewriteRule)
    ensures
        r.name@ == "ANNIHILATION"@,
        r@ == seq![(conj(mv("phi"@), Form::Contra), Form::Contra), (disj(mv("phi"@), Form::Taut), Form::Taut)],
{
    let mut reductions: Vec<(Expr, Expr)> = Vec::new();
    reductions.push((Expr::and(Expr::var("phi"), Expr::Contra), Expr::Contra));
    reductions.push((Expr::or(Expr::var("phi"), Expr::Taut), Expr::Taut));
    let r = RewriteRule { name: "ANNIHILATION".to_owned(), reductions };
    proof {
        assert(r@ =~= seq![(conj(mv("phi"@), Form::Contra), Form::Contra), (disj(mv("phi"@), Form::Taut), Form::Taut)]);
    }
    r
}

/// The `INVERSE` schema.
pub fn rule_inverse() -> (r: RewriteRule)
    ensures
        r.name@ == "INVERSE"@,
        r@ == seq![(neg(Form::Taut), Form::Contra), (neg(Form::Contra), Form::Taut)],
{
    let mut reductions: Vec<(Expr, Expr)> = Vec::new();
    reductions.push((Expr::not(Expr::Taut), Expr::Contra));
    reductions.push((Expr::not(Expr::Contra), Expr::Taut));
    let r = RewriteRule { name: "INVERSE".to_owned(), reductions };
    proof {
        assert(r@ =~= seq![(neg(Form::Taut), Form::Contra), (neg(Form::Contra), Form::Taut)]);
    }
    r
}

/// The `CONDITIONAL_ABSORPTION` schema.
pub fn rule_conditional_absorption() -> (r: RewriteRule)
    ensures
        r.name@ == "CONDITIONAL_ABSORPTION"@,
        r@ == seq![(conj(mv("phi"@), cond(neg(mv("phi"@)), mv("psi"@))), mv("phi"@)), (conj(mv("psi"@), cond(mv("phi"@), mv("psi"@))), mv("psi"@))],
{
    let mut reductions: Vec<(Expr, Expr)> = Vec::new();
    reductions.push((Expr::and(Expr::var("phi"), Expr::implies(Expr::not(Expr::var("phi")), Expr::var("psi"))), Expr::var("phi")));
    reductions.push((Expr::and(Expr::var("psi"), Expr::implies(Expr::var("phi"), Expr::var("psi"))), Expr::var("psi")));
    let r = RewriteRule { name: "CONDITIONAL_ABSORPTION".to_owned(), reductions };
    proof {
        assert(r@ =~= seq![(conj(mv("phi"@), cond(neg(mv("phi"@)), mv("psi"@))), mv("phi"@)), (conj(mv("psi"@), cond(mv("phi"@), mv("psi"@))), mv("psi"@))]);
    }
    r
}

/// The `CONDITIONAL_COMPLEMENT` schema.
pub fn rule_conditional_complement() -> (r: RewriteRule)
    ensures
        r.name@ == "CONDITIONAL_COMPLEMENT"@,
        r@ == seq![(cond(mv("phi"@), mv("phi"@)), Form::Taut)],
{
    let mut reductions: Vec<(Expr, Expr)> = Vec::new();
    reductions.push((Expr::implies(Expr::var("phi"), Expr::var("phi")), Expr::Taut));
    let r = RewriteRule { name: "CONDITIONAL_COMPLEMENT".to_owned(), reductions };
    proof {
        assert(r@ =~= seq![(cond(mv("phi"@), mv("phi"@)), Form::Taut)]);
    }
    r
}

/// The `CONDITIONAL_IDENTITY` schema.
pub fn rule_conditional_identity() -> (r: RewriteRule)
    ensures
        r.name@ == "CONDITIONAL_IDENTITY"@,
        r@ == seq![(cond(mv("phi"@), Form::Contra), neg(mv("phi"@))), (cond(Form::Taut, mv("phi"@)), mv("phi"@))],
{
    let mut reductions: Vec<(Expr, Expr)> = Vec::new();
    reductions.push((Expr::implies(Expr::var("phi"), Expr::Contra), Expr::not(Expr::var("phi"))));
    reductions.push((Expr::implies(Expr::Taut, Expr::var("phi")), Expr::var("phi")));
    let r = RewriteRule { name: "CONDITIONAL_IDENTITY".to_owned(), reductions };
    proof {
        assert(r@ =~= seq![(cond(mv("phi"@), Form::Contra), neg(mv("phi"@))), (cond(Form::Taut, mv("phi"@)), mv("phi"@))]);
    }
    r
}

/// The `CONDITIONAL_ANNIHILATION` schema.
pub fn rule_conditional_annihilation() -> (r: RewriteRule)
    ensures
        r.name@ == "CONDITIONAL_ANNIHILATION"@,
        r@ == seq![(cond(mv("phi"@), Form::Taut), Form::Taut), (cond(Form::Contra, mv("phi"@)), Form::Taut)],
{
    let mut reductions: Vec<(Expr, Expr)> = Vec::new();
    reductions.push((Expr::implies(Expr::var("phi"), Expr::Taut), Expr::Taut));
    reductions.push((Expr::implies(Expr::Contra, Expr::var("phi")), Expr::Taut));
    let r = RewriteRule { name: "CONDITIONAL_ANNIHILATION".to_owned(), reductions };
    proof {
        assert(r@ =~= seq![(cond(mv("phi"@), Form::Taut), Form::Taut), (cond(Form::Contra, mv("phi"@)), Form::Taut)]);
    }
    r
}

/// The `CONDITIONAL_IMPLICATION` schema.
pub fn rule_conditional_implication() -> (r: RewriteRule)
    ensures
        r.name@ == "CONDITIONAL_IMPLICATION"@,
        r@ == seq![(cond(mv("phi"@), mv("psi"@)), disj(neg(mv("phi"@)), mv("psi"@))), (neg(cond(mv("phi"@), mv("psi"@))), conj(mv("phi"@), neg(mv("psi"@))))],
{
    let mut reductions: Vec<(Expr, Expr)> = Vec::new();
    reductions.push((Expr::implies(Expr::var("phi"), Expr::var("psi")), Expr::or(Expr::not(Expr::var("phi")), Expr::var("psi"))));
    reductions.push((Expr::not(Expr::implies(Expr::var("phi"), Expr::var("psi"))), Expr::and(Expr::var("phi"), Expr::not(Expr::var("psi")))));
    let r = RewriteRule { name: "CONDITIONAL_IMPLICATION".to_owned(), reductions };
    proof {
        assert(r@ =~= seq![(cond(mv("phi"@), mv("psi"@)), disj(neg(mv("phi"@)), mv("psi"@))), (neg(cond(mv("phi"@), mv("psi"@))), conj(mv("phi"@), neg(mv("psi"@))))]);
    }
    r
}

/// The `CONDITIONAL_CONTRAPOSITION` schema.
pub fn rule_conditional_contraposition() -> (r: RewriteRule)
    ensures
        r.name@ == "CONDITIONAL_CONTRAPOSITION"@,
        r@ == seq![(cond(neg(mv("phi"@)), neg(mv("psi"@))), cond(mv("psi"@), mv("phi"@)))],
{
    let mut reductions: Vec<(Expr, Expr)> = Vec::new();
    reductions.push((Expr::implies(Expr::not(Expr::var("phi")), Expr::not(Expr::var("psi"))), Expr::implies(Expr::var("psi"), Expr::var("phi"))));
    let r = RewriteRule { name: "CONDITIONAL_CONTRAPOSITION".to_owned(), reductions };
    proof {
        assert(r@ =~= seq![(cond(neg(mv("phi"@)), neg(mv("psi"@))), cond(mv("psi"@), mv("phi"@)))]);
    }
    r
}

/// The `CONDITIONAL_EXPORTATION` schema.
pub fn rule_conditional_exportation() -> (r: RewriteRule)
    ensures
        r.name@ == "CONDITIONAL_EXPORTATION"@,
        r@ == seq![(cond(mv("phi"@), cond(mv("psi"@), mv("lambda"@))), cond(conj(mv("phi"@), mv("psi"@)), mv("lambda"@)))],
{
    let mut reductions: Vec<(Expr, Expr)> = Vec::new();
    reductions.push((Expr::implies(Expr::var("phi"), Expr::implies(Expr::var("psi"), Expr::var("lambda"))), Expr::implies(Expr::and(Expr::var("phi"), Expr::var("psi")), Expr::var("lambda"))));
    let r = RewriteRule { name: "CONDITIONAL_EXPORTATION".to_owned(), reductions };
    proof {
        assert(r@ =~= seq![(cond(mv("phi"@), cond(mv("psi"@), mv("lambda"@))), cond(conj(mv("phi"@), mv("psi"@)), mv("lambda"@)))]);
    }
    r
}

/// The `CONDITIONAL_DISTRIBUTION` schema.
pub fn rule_conditional_distribution() -> (r: RewriteRule)
    ensures
        r.name@ == "CONDITIONAL_DISTRIBUTION"@,
        r@ == seq![(cond(mv("phi"@), conj(mv("psi"@), mv("lambda"@))), conj(cond(mv("phi"@), mv("psi"@)), cond(mv("phi"@), mv("lambda"@)))), (cond(disj(mv("phi"@), mv("psi"@)), mv("lambda"@)), conj(cond(mv("phi"@), mv("lambda"@)), cond(mv("psi"@), mv("lambda"@)))), (cond(mv("phi"@), disj(mv("psi"@), mv("lambda"@))), disj(cond(mv("phi"@), mv("psi"@)), cond(mv("phi"@), mv("lambda"@)))), (cond(conj(mv("phi"@), mv("psi"@)), mv("lambda"@)), disj(cond(mv("phi"@), mv("lambda"@)), cond(mv("psi"@), mv("lambda"@))))],
{
    let mut reductions: Vec<(Expr, Expr)> = Vec::new();
    reductions.push((Expr::implies(Expr::var("phi"), Expr::and(Expr::var("psi"), Expr::var("lambda"))), Expr::and(Expr::implies(Expr::var("phi"), Expr::var("psi")), Expr::implies(Expr::var("phi"), Expr::var("lambda")))));
    reductions.push((Expr::implies(Expr::or(Expr::var("phi"), Expr::var("psi")), Expr::var("lambda")), Expr::and(Expr::implies(Expr::var("phi"), Expr::var("lambda")), Expr::implies(Expr::var("psi"), Expr::var("lambda")))));
    reductions.push((Expr::implies(Expr::var("phi"), Expr::or(Expr::var("psi"), Expr::var("lambda"))), Expr::or(Expr::implies(Expr::var("phi"), Expr::var("psi")), Expr::implies(Expr::var("phi"), Expr::var("lambda")))));
    reductions.push((Expr::implies(Expr::and(Expr::var("phi"), Expr::var("psi")), Expr::var("lambda")), Expr::or(Expr::implies(Expr::var("phi"), Expr::var("lambda")), Expr::implies(Expr::var("psi"), Expr::var("lambda")))));
    let r = RewriteRule { name: "CONDITIONAL_DISTRIBUTION".to_owned(), reductions };
    proof {
        assert(r@ =~= seq![(cond(mv("phi"@), conj(mv("psi"@), mv("lambda"@))), conj(cond(mv("phi"@), mv("psi"@)), cond(mv("phi"@), mv("lambda"@)))), (cond(disj(mv("phi"@), mv("psi"@)), mv("lambda"@)), conj(cond(mv("phi"@), mv("lambda"@)), cond(mv("psi"@), mv("lambda"@)))), (cond(mv("phi"@), disj(mv("psi"@), mv("lambda"@))), disj(cond(mv("phi"@), mv("psi"@)), cond(mv("phi"@), mv("lambda"@)))), (cond(conj(mv("phi"@), mv("psi"@)), mv("lambda"@)), disj(cond(mv("phi"@), mv("lambda"@)), cond(mv("psi"@), mv("lambda"@))))]);
    }
    r
}

/// The `CONDITIONAL_REDUCTION` schema.
pub fn rule_conditional_reduction() -> (r: RewriteRule)
    ensures
        r.name@ == "CONDITIONAL_REDUCTION"@,
        r@ == seq![(conj(mv("phi"@), cond(mv("phi"@), mv("psi"@))), conj(mv("phi"@), mv("psi"@))), (conj(neg(mv("psi"@)), cond(mv("phi"@), mv("psi"@))), conj(neg(mv("psi"@)), neg(mv("phi"@))))],
{
    let mut reductions: Vec<(Expr, Expr)> = Vec::new();
    reductions.push((Expr::and(Expr::var("phi"), Expr::implies(Expr::var("phi"), Expr::var("psi"))), Expr::and(Expr::var("phi"), Expr::var("psi"))));
    reductions.push((Expr::and(Expr::not(Expr::var("psi")), Expr::implies(Expr::var("phi"), Expr::var("psi"))), Expr::and(Expr::not(Expr::var("psi")), Expr::not(Expr::var("phi")))));
    let r = RewriteRule { name: "CONDITIONAL_REDUCTION".to_owned(), reductions };
    proof {
        assert(r@ =~= seq![(conj(mv("phi"@), cond(mv("phi"@), mv("psi"@))), conj(mv("phi"@), mv("psi"@))), (conj(neg(mv("psi"@)), cond(mv("phi"@), mv("psi"@))), conj(neg(mv("psi"@)), neg(mv("phi"@))))]);
    }
    r
}

/// The `KNIGHTS_AND_KNAVES` schema.
pub fn rule_knights_and_knaves() -> (r: RewriteRule)
    ensures
        r.name@ == "KNIGHTS_AND_KNAVES"@,
        r@ == seq![(bicond(mv("phi"@), conj(mv("phi"@), mv("psi"@))), cond(mv("phi"@), mv("psi"@))), (bicond(mv("phi"@), disj(mv("phi"@), mv("psi"@))), cond(mv("psi"@), mv("phi"@)))],
{
    let mut reductions: Vec<(Expr, Expr)> = Vec::new();
    reductions.push((Expr::iff(Expr::var("phi"), Expr::and(Expr::var("phi"), Expr::var("psi"))), Expr::implies(Expr::var("phi"), Expr::var("psi"))));
    reductions.push((Expr::iff(Expr::var("phi"), Expr::or(Expr::var("phi"), Expr::var("psi"))), Expr::implies(Expr::var("psi"), Expr::var("phi"))));
    let r = RewriteRule { name: "KNIGHTS_AND_KNAVES".to_owned(), reductions };
    proof {
        assert(r@ =~= seq![(bicond(mv("phi"@), conj(mv("phi"@), mv("psi"@))), cond(mv("phi"@), mv("psi"@))), (bicond(mv("phi"@), disj(mv("phi"@), mv("psi"@))), cond(mv("psi"@), mv("phi"@)))]);
    }
    r
}

/// The `CONDITIONAL_IDEMPOTENCE` schema.
pub fn rule_conditional_idempotence() -> (r: RewriteRule)
    ensures
        r.name@ == "CONDITIONAL_IDEMPOTENCE"@,
        r@ == seq![(cond(mv("phi"@), neg(mv("phi"@))), neg(mv("phi"@))), (cond(neg(mv("phi"@)), mv("phi"@)), mv("phi"@))],
{
    let mut reductions: Vec<(Expr, Expr)> = Vec::new();
    reductions.push((Expr::implies(Expr::var("phi"), Expr::not(Expr::var("phi"))), Expr::not(Expr::var("phi"))));
    reductions.push((Expr::implies(Expr::not(Expr::var("phi")), Expr::var("phi")), Expr::var("phi")));
    let r = RewriteRule { name: "CONDITIONAL_IDEMPOTENCE".to_owned(), reductions };
    proof {
        assert(r@ =~= seq![(cond(mv("phi"@), neg(mv("phi"@))), neg(mv("phi"@))), (cond(neg(mv("phi"@)), mv("phi"@)), mv("phi"@))]);
    }
    r
}

/// The `BICONDITIONAL_EQUIVALENCE` schema.
pub fn rule_biconditional_equivalence() -> (r: RewriteRule)
    ensures
        r.name@ == "BICONDITIONAL_EQUIVALENCE"@,
        r@ == seq![(conj(cond(mv("phi"@), mv("psi"@)), cond(mv("psi"@), mv("phi"@))), bicond(mv("phi"@), mv("psi"@))), (disj(conj(mv("phi"@), mv("psi"@)), conj(neg(mv("phi"@)), neg(mv("psi"@)))), bicond(mv("phi"@), mv("psi"@)))],
{
    let mut reductions: Vec<(Expr, Expr)> = Vec::new();
    reductions.push((Expr::and(Expr::implies(Expr::var("phi"), Expr::var("psi")), Expr::implies(Expr::var("psi"), Expr::var("phi"))), Expr::iff(Expr::var("phi"), Expr::var("psi"))));
    reductions.push((Expr::or(Expr::and(Expr::var("phi"), Expr::var("psi")), Expr::and(Expr::not(Expr::var("phi")), Expr::not(Expr::var("psi")))), Expr::iff(Expr::var("phi"), Expr::var("psi"))));
    let r = RewriteRule { name: "BICONDITIONAL_EQUIVALENCE".to_owned(), reductions };
    proof {
        assert(r@ =~= seq![(conj(cond(mv("phi"@), mv("psi"@)), cond(mv("psi"@), mv("phi"@))), bicond(mv("phi"@), mv("psi"@))), (disj(conj(mv("phi"@), mv("psi"@)), conj(neg(mv("phi"@)), neg(mv("psi"@)))), bicond(mv("phi"@), mv("psi"@)))]);
    }
    r
}

/// The `BICONDITIONAL_COMMUTATION` schema.
pub fn rule_biconditional_commutation() -> (r: RewriteRule)
    ensures
        r.name@ == "BICONDITIONAL_COMMUTATION"@,
        r@ == seq![(bicond(mv("phi"@), mv("psi"@)), bicond(mv("psi"@), mv("phi"@)))],
{
    let mut reductions: Vec<(Expr, Expr)> = Vec::new();
    reductions.push((Expr::iff(Expr::var("phi"), Expr::var("psi")), Expr::iff(Expr::var("psi"), Expr::var("phi"))));
    let r = RewriteRule { name: "BICONDITIONAL_COMMUTATION".to_owned(), reductions };
    proof {
        assert(r@ =~= seq![(bicond(mv("phi"@), mv("psi"@)), bicond(mv("psi"@), mv("phi"@)))]);
    }
    r
}

/// The `BICONDITIONAL_ASSOCIATION` schema.
pub fn rule_biconditional_association() -> (r: RewriteRule)
    ensures
        r.name@ == "BICONDITIONAL_ASSOCIATION"@,
        r@ == seq![(bicond(mv("phi"@), bicond(mv("psi"@), mv("lambda"@))), bicond(bicond(mv("phi"@), mv("psi"@)), mv("lambda"@)))],
{
    let mut reductions: Vec<(Expr, Expr)> = Vec::new();
    reductions.push((Expr::iff(Expr::var("phi"), Expr::iff(Expr::var("psi"), Expr::var("lambda"))), Expr::iff(Expr::iff(Expr::var("phi"), Expr::var("psi")), Expr::var("lambda"))));
    let r = RewriteRule { name: "BICONDITIONAL_ASSOCIATION".to_owned(), reductions };
    proof {
        assert(r@ =~= seq![(bicond(mv("phi"@), bicond(mv("psi"@), mv("lambda"@))), bicond(bicond(mv("phi"@), mv("psi"@)), mv("lambda"@)))]);
    }
    r
}

/// The `BICONDITIONAL_REDUCTION` schema.
pub fn rule_biconditional_reduction() -> (r: RewriteRule)
    ensures
        r.name@ == "BICONDITIONAL_REDUCTION"@,
        r@ == seq![(conj(mv("phi"@), bicond(mv("phi"@), mv("psi"@))), conj(mv("phi"@), mv("psi"@))), (conj(neg(mv("phi"@)), bicond(mv("phi"@), mv("psi"@))), conj(neg(mv("phi"@)), neg(mv("psi"@))))],
{
    let mut reductions: Vec<(Expr, Expr)> = Vec::new();
    reductions.push((Expr::and(Expr::var("phi"), Expr::iff(Expr::var("phi"), Expr::var("psi"))), Expr::and(Expr::var("phi"), Expr::var("psi"))));
    reductions.push((Expr::and(Expr::not(Expr::var("phi")), Expr::iff(Expr::var("phi"), Expr::var("psi"))), Expr::and(Expr::not(Expr::var("phi")), Expr::not(Expr::var("psi")))));
    let r = RewriteRule { name: "BICONDITIONAL_REDUCTION".to_owned(), reductions };
    proof {
        assert(r@ =~= seq![(conj(mv("phi"@), bicond(mv("phi"@), mv("psi"@))), conj(mv("phi"@), mv("psi"@))), (conj(neg(mv("phi"@)), bicond(mv("phi"@), mv("psi"@))), conj(neg(mv("phi"@)), neg(mv("psi"@))))]);
    }
    r
}

/// The `BICONDITIONAL_COMPLEMENT` schema.
pub fn rule_biconditional_complement() -> (r: RewriteRule)
    ensures
        r.name@ == "BICONDITIONAL_COMPLEMENT"@,
        r@ == seq![(bicond(mv("phi"@), mv("phi"@)), Form::Taut), (bicond(mv("phi"@), neg(mv("phi"@))), Form::Contra)],
{
    let mut reductions: Vec<(Expr, Expr)> = Vec::new();
    reductions.push((Expr::iff(Expr::var("phi"), Expr::var("phi")), Expr::Taut));
    reductions.push((Expr::iff(Expr::var("phi"), Expr::not(Expr::var("phi"))), Expr::Contra));
    let r = RewriteRule { name: "BICONDITIONAL_COMPLEMENT".to_owned(), reductions };
    proof {
        assert(r@ =~= seq![(bicond(mv("phi"@), mv("phi"@)), Form::Taut), (bicond(mv("phi"@), neg(mv("phi"@))), Form::Contra)]);
    }
    r
}

/// The `BICONDITIONAL_IDENTITY` schema.
pub fn rule_biconditional_identity() -> (r: RewriteRule)
    ensures
        r.name@ == "BICONDITIONAL_IDENTITY"@,
        r@ == seq![(bicond(mv("phi"@), Form::Contra), neg(mv("phi"@))), (bicond(mv("phi"@), Form::Taut), mv("phi"@))],
{
    let mut reductions: Vec<(Expr, Expr)> = Vec::new();
    reductions.push((Expr::iff(Expr::var("phi"), Expr::Contra), Expr::not(Expr::var("phi"))));
    reductions.push((Expr::iff(Expr::var("phi"), Expr::Taut), Expr::var("phi")));
    let r = RewriteRule { name: "BICONDITIONAL_IDENTITY".to_owned(), reductions };
    proof {
        assert(r@ =~= seq![(bicond(mv("phi"@), Form::Contra), neg(mv("phi"@))), (bicond(mv("phi"@), Form::Taut), mv("phi"@))]);
    }
    r
}

/// The `BICONDITIONAL_NEGATION` schema.
pub fn rule_biconditional_negation() -> (r: RewriteRule)
    ensures
        r.name@ == "BICONDITIONAL_NEGATION"@,
        r@ == seq![(bicond(neg(mv("phi"@)), mv("psi"@)), neg(bicond(mv("phi"@), mv("psi"@)))), (bicond(mv("phi"@), neg(mv("psi"@))), neg(bicond(mv("phi"@), mv("psi"@))))],
{
    let mut reductions: Vec<(Expr, Expr)> = Vec::new();
    reductions.push((Expr::iff(Expr::not(Expr::var("phi")), Expr::var("psi")), Expr::not(Expr::iff(Expr::var("phi"), Expr::var("psi")))));
    reductions.push((Expr::iff(Expr::var("phi"), Expr::not(Expr::var("psi"))), Expr::not(Expr::iff(Expr::var("phi"), Expr::var("psi")))));
    let r = RewriteRule { name: "BICONDITIONAL_NEGATION".to_owned(), reductions };
    proof {
        assert(r@ =~= seq![(bicond(neg(mv("phi"@)), mv("psi"@)), neg(bicond(mv("phi"@), mv("psi"@)))), (bicond(mv("phi"@), neg(mv("psi"@))), neg(bicond(mv("phi"@), mv("psi"@))))]);
    }
    r
}

/// The `BICONDITIONAL_SUBSTITUTION` schema.
pub fn rule_biconditional_substitution() -> (r: RewriteRule)
    ensures
        r.name@ == "BICONDITIONAL_SUBSTITUTION"@,
        r@ == seq![(conj(bicond(mv("phi"@), mv("psi"@)), capp("S"@, mv("phi"@))), conj(bicond(mv("phi"@), mv("psi"@)), capp("S"@, mv("psi"@))))],
{
    let mut reductions: Vec<(Expr, Expr)> = Vec::new();
    reductions.push((Expr::and(Expr::iff(Expr::var("phi"), Expr::var("psi")), Expr::app1("S", Expr::var("phi"))), Expr::and(Expr::iff(Expr::var("phi"), Expr::var("psi")), Expr::app1("S", Expr::var("psi")))));
    let r = RewriteRule { name: "BICONDITIONAL_SUBSTITUTION".to_owned(), reductions };
    proof {
        assert(r@ =~= seq![(conj(bicond(mv("phi"@), mv("psi"@)), capp("S"@, mv("phi"@))), conj(bicond(mv("phi"@), mv("psi"@)), capp("S"@, mv("psi"@))))]);
    }
    r
}

/// The `CONJUNCTION` schema.
pub fn rule_conjunction() -> (r: RewriteRule)
    ensures
        r.name@ == "CONJUNCTION"@,
        r@ == seq![(conj(mv("phi"@), Form::Taut), mv("phi"@)), (conj(mv("phi"@), Form::Contra), Form::Contra)],
{
    let mut reductions: Vec<(Expr, Expr)> = Vec::new();
    reductions.push((Expr::and(Expr::var("phi"), Expr::Taut), Expr::var("phi")));
    reductions.push((Expr::and(Expr::var("phi"), Expr::Contra), Expr::Contra));
    let r = RewriteRule { name: "CONJUNCTION".to_owned(), reductions };
    proof {
        assert(r@ =~= seq![(conj(mv("phi"@), Form::Taut), mv("phi"@)), (conj(mv("phi"@), Form::Contra), Form::Contra)]);
    }
    r
}

/// The `DISJUNCTION` schema.
pub fn rule_disjunction() -> (r: RewriteRule)
    ensures
        r.name@ == "DISJUNCTION"@,
        r@ == seq![(disj(mv("phi"@), Form::Contra), mv("phi"@)), (disj(mv("phi"@), Form::Taut), Form::Taut)],
{
    let mut reductions: Vec<(Expr, Expr)> = Vec::new();
    reductions.push((Expr::or(Expr::var("phi"), Expr::Contra), Expr::var("phi")));
    reductions.push((Expr::or(Expr::var("phi"), Expr::Taut), Expr::Taut));
    let r = RewriteRule { name: "DISJUNCTION".to_owned(), reductions };
    proof {
        assert(r@ =~= seq![(disj(mv("phi"@), Form::Contra), mv("phi"@)), (disj(mv("phi"@), Form::Taut), Form::Taut)]);
    }
    r
}

/// The `NEGATION` schema.
pub fn rule_negation() -> (r: RewriteRule)
    ensures
        r.name@ == "NEGATION"@,
        r@ == seq![(neg(Form::Taut), Form::Contra), (neg(Form::Contra), Form::Taut)],
{
    let mut reductions: Vec<(Expr, Expr)> = Vec::new();
    reductions.push((Expr::not(Expr::Taut), Expr::Contra));
    reductions.push((Expr::not(Expr::Contra), Expr::Taut));
    let r = RewriteRule { name: "NEGATION".to_owned(), reductions };
    proof {
        assert(r@ =~= seq![(neg(Form::Taut), Form::Contra), (neg(Form::Contra), Form::Taut)]);
    }
    r
}

/// The `BICOND_REDUCTION` schema.
pub fn rule_bicond_reduction() -> (r: RewriteRule)
    ensures
        r.name@ == "BICOND_REDUCTION"@,
        r@ == seq![(bicond(mv("phi"@), Form::Contra), neg(mv("phi"@))), (bicond(mv("phi"@), Form::Taut), mv("phi"@))],
{
    let mut reductions: Vec<(Expr, Expr)> = Vec::new();
    reductions.push((Expr::iff(Expr::var("phi"), Expr::Contra), Expr::not(Expr::var("phi"))));
    reductions.push((Expr::iff(Expr::var("phi"), Expr::Taut), Expr::var("phi")));
    let r = RewriteRule { name: "BICOND_REDUCTION".to_owned(), reductions };
    proof {
        assert(r@ =~= seq![(bicond(mv("phi"@), Form::Contra), neg(mv("phi"@))), (bicond(mv("phi"@), Form::Taut), mv("phi"@))]);
    }
    r
}

/// The `COND_REDUCTION` schema.
pub fn rule_cond_reduction() -> (r: RewriteRule)
    ensures
        r.name@ == "COND_REDUCTION"@,
        r@ == seq![(cond(mv("phi"@), Form::Taut), Form::Taut), (cond(Form::Contra, mv("phi"@)), Form::Taut), (cond(mv("phi"@), Form::Contra), neg(mv("phi"@))), (cond(Form::Taut, mv("phi"@)), mv("phi"@))],
{
    let mut reductions: Vec<(Expr, Expr)> = Vec::new();
    reductions.push((Expr::implies(Expr::var("phi"), Expr::Taut), Expr::Taut));
    reductions.push((Expr::implies(Expr::Contra, Expr::var("phi")), Expr::Taut));
    reductions.push((Expr::implies(Expr::var("phi"), Expr::Contra), Expr::not(Expr::var("phi"))));
    reductions.push((Expr::implies(Expr::Taut, Expr::var("phi")), Expr::var("phi")));
    let r = RewriteRule { name: "COND_REDUCTION".to_owned(), reductions };
    proof {
        assert(r@ =~= seq![(cond(mv("phi"@), Form::Taut), Form::Taut), (cond(Form::Contra, mv("phi"@)), Form::Taut), (cond(mv("phi"@), Form::Contra), neg(mv("phi"@))), (cond(Form::Taut, mv("phi"@)), mv("phi"@))]);
    }
    r
}

/// The classification group of a rule; the placeholder rule has none.
pub open spec fn class_of(id: RuleId) -> Option<RuleClassification> {
    match id {
        RuleId::DoubleNegation => Some(RuleClassification::BooleanEquivalence),
        RuleId::Distribution => Some(RuleClassification::BooleanEquivalence),
        RuleId::Identity => Some(RuleClassification::BooleanEquivalence),
        RuleId::Annihilation => Some(RuleClassification::BooleanEquivalence),
        RuleId::Inverse => Some(RuleClassification::BooleanEquivalence),
        RuleId::ConditionalAbsorption => Some(RuleClassification::ConditionalEquivalence),
        RuleId::ConditionalComplement => Some(RuleClassification::ConditionalEquivalence),
        RuleId::ConditionalIdentity => Some(RuleClassification::ConditionalEquivalence),
        RuleId::ConditionalAnnihilation => Some(RuleClassification::ConditionalEquivalence),
        RuleId::ConditionalImplication => Some(RuleClassification::ConditionalEquivalence),
        RuleId::ConditionalContraposition => Some(RuleClassification::ConditionalEquivalence),
        RuleId::ConditionalExportation => Some(RuleClassification::ConditionalEquivalence),
        RuleId::ConditionalDistribution => Some(RuleClassification::ConditionalEquivalence),
        RuleId::ConditionalReduction => Some(RuleClassification::ConditionalEquivalence),
        RuleId::KnightsAndKnaves => Some(RuleClassification::ConditionalEquivalence),
        RuleId::ConditionalIdempotence => Some(RuleClassification::ConditionalEquivalence),
        RuleId::BiconditionalEquivalence => Some(RuleClassification::BiconditionalEquivalence),
        RuleId::BiconditionalCommutation => Some(RuleClassification::BiconditionalEquivalence),
        RuleId::BiconditionalAssociation => Some(RuleClassification::BiconditionalEquivalence),
        RuleId::BiconditionalReduction => Some(RuleClassification::BiconditionalEquivalence),
        RuleId::BiconditionalComplement => Some(RuleClassification::BiconditionalEquivalence),
        RuleId::BiconditionalIdentity => Some(RuleClassification::BiconditionalEquivalence),
        RuleId::BiconditionalNegation => Some(RuleClassification::BiconditionalEquivalence),
        RuleId::BiconditionalSubstitution => Some(RuleClassification::BiconditionalEquivalence),
        RuleId::Conjunction => Some(RuleClassification::BooleanEquivalence),
        RuleId::Disjunction => Some(RuleClassification::BooleanEquivalence),
        RuleId::Negation => Some(RuleClassification::BooleanEquivalence),
        RuleId::BicondReduction => Some(RuleClassification::BiconditionalEquivalence),
        RuleId::CondReduction => Some(RuleClassification::ConditionalEquivalence),
        RuleId::Empty => None,
    }
}

/// The classification group of a rule (executable form of `class_of`).
pub fn classification(id: RuleId) -> (r: Option<RuleClassification>)
    ensures
        r == class_of(id),
{
    match id {
        RuleId::DoubleNegation => Some(RuleClassification::BooleanEquivalence),
        RuleId::Distribution => Some(RuleClassification::BooleanEquivalence),
        RuleId::Identity => Some(RuleClassification::BooleanEquivalence),
        RuleId::Annihilation => Some(RuleClassification::BooleanEquivalence),
        RuleId::Inverse => Some(RuleClassification::BooleanEquivalence),
        RuleId::ConditionalAbsorption => Some(RuleClassification::ConditionalEquivalence),
        RuleId::ConditionalComplement => Some(RuleClassification::ConditionalEquivalence),
        RuleId::ConditionalIdentity => Some(RuleClassification::ConditionalEquivalence),
        RuleId::ConditionalAnnihilation => Some(RuleClassification::ConditionalEquivalence),
        RuleId::ConditionalImplication => Some(RuleClassification::ConditionalEquivalence),
        RuleId::ConditionalContraposition => Some(RuleClassification::ConditionalEquivalence),
        RuleId::ConditionalExportation => Some(RuleClassification::ConditionalEquivalence),
        RuleId::ConditionalDistribution => Some(RuleClassification::ConditionalEquivalence),
        RuleId::ConditionalReduction => Some(RuleClassification::ConditionalEquivalence),
        RuleId::KnightsAndKnaves => Some(RuleClassification::ConditionalEquivalence),
        RuleId::ConditionalIdempotence => Some(RuleClassification::ConditionalEquivalence),
        RuleId::BiconditionalEquivalence => Some(RuleClassification::BiconditionalEquivalence),
        RuleId::BiconditionalCommutation => Some(RuleClassification::BiconditionalEquivalence),
        RuleId::BiconditionalAssociation => Some(RuleClassification::BiconditionalEquivalence),
        RuleId::BiconditionalReduction => Some(RuleClassification::BiconditionalEquivalence),
        RuleId::BiconditionalComplement => Some(RuleClassification::BiconditionalEquivalence),
        RuleId::BiconditionalIdentity => Some(RuleClassification::BiconditionalEquivalence),
        RuleId::BiconditionalNegation => Some(RuleClassification::BiconditionalEquivalence),
        RuleId::BiconditionalSubstitution => Some(RuleClassification::BiconditionalEquivalence),
        RuleId::Conjunction => Some(RuleClassification::BooleanEquivalence),
        RuleId::Disjunction => Some(RuleClassification::BooleanEquivalence),
        RuleId::Negation => Some(RuleClassification::BooleanEquivalence),
        RuleId::BicondReduction => Some(RuleClassification::BiconditionalEquivalence),
        RuleId::CondReduction => Some(RuleClassification::ConditionalEquivalence),
        RuleId::Empty => None,
    }
}

/// The catalog partitioned into its classification groups, in catalog
/// order, for menu construction.
pub fn rules_in_class(c: RuleClassification) -> (r: Vec<RuleId>)
    ensures
        r@ == match c {
            RuleClassification::BooleanEquivalence => seq![RuleId::DoubleNegation, RuleId::Distribution, RuleId::Identity, RuleId::Annihilation, RuleId::Inverse, RuleId::Conjunction, RuleId::Disjunction, RuleId::Negation],
            RuleClassification::ConditionalEquivalence => seq![RuleId::ConditionalAbsorption, RuleId::ConditionalComplement, RuleId::ConditionalIdentity, RuleId::ConditionalAnnihilation, RuleId::ConditionalImplication, RuleId::ConditionalContraposition, RuleId::ConditionalExportation, RuleId::ConditionalDistribution, RuleId::ConditionalReduction, RuleId::KnightsAndKnaves, RuleId::ConditionalIdempotence, RuleId::CondReduction],
            RuleClassification::BiconditionalEquivalence => seq![RuleId::BiconditionalEquivalence, RuleId::BiconditionalCommutation, RuleId::BiconditionalAssociation, RuleId::BiconditionalReduction, RuleId::BiconditionalComplement, RuleId::BiconditionalIdentity, RuleId::BiconditionalNegation, RuleId::BiconditionalSubstitution, RuleId::BicondReduction],
        },
        forall|i: int| 0 <= i < r@.len() ==> class_of(#[trigger] r@[i]) == Some(c),
{
    let mut r: Vec<RuleId> = Vec::new();
    match c {
        RuleClassification::BooleanEquivalence => {
            r.push(RuleId::DoubleNegation);
            r.push(RuleId::Distribution);
            r.push(RuleId::Identity);
            r.push(RuleId::Annihilation);
            r.push(RuleId::Inverse);
            r.push(RuleId::Conjunction);
            r.push(RuleId::Disjunction);
            r.push(RuleId::Negation);
        },
        RuleClassification::ConditionalEquivalence => {
            r.push(RuleId::ConditionalAbsorption);
            r.push(RuleId::ConditionalComplement);
            r.push(RuleId::ConditionalIdentity);
            r.push(RuleId::ConditionalAnnihilation);
            r.push(RuleId::ConditionalImplication);
            r.push(RuleId::ConditionalContraposition);
            r.push(RuleId::ConditionalExportation);
            r.push(RuleId::ConditionalDistribution);
            r.push(RuleId::ConditionalReduction);
            r.push(RuleId::KnightsAndKnaves);
            r.push(RuleId::ConditionalIdempotence);
            r.push(RuleId::CondReduction);
        },
        RuleClassification::BiconditionalEquivalence => {
            r.push(RuleId::BiconditionalEquivalence);
            r.push(RuleId::BiconditionalCommutation);
            r.push(RuleId::BiconditionalAssociation);
            r.push(RuleId::BiconditionalReduction);
            r.push(RuleId::BiconditionalComplement);
            r.push(RuleId::BiconditionalIdentity);
            r.push(RuleId::BiconditionalNegation);
            r.push(RuleId::BiconditionalSubstitution);
            r.push(RuleId::BicondReduction);
        },
    }
    proof {
        assert(c == RuleClassification::BooleanEquivalence ==> r@ =~= seq![RuleId::DoubleNegation, RuleId::Distribution, RuleId::Identity, RuleId::Annihilation, RuleId::Inverse, RuleId::Conjunction, RuleId::Disjunction, RuleId::Negation]);
        assert(c == RuleClassification::ConditionalEquivalence ==> r@ =~= seq![RuleId::ConditionalAbsorption, RuleId::ConditionalComplement, RuleId::ConditionalIdentity, RuleId::ConditionalAnnihilation, RuleId::ConditionalImplication, RuleId::ConditionalContraposition, RuleId::ConditionalExportation, RuleId::ConditionalDistribution, RuleId::ConditionalReduction, RuleId::KnightsAndKnaves, RuleId::ConditionalIdempotence, RuleId::CondReduction]);
        assert(c == RuleClassification::BiconditionalEquivalence ==> r@ =~= seq![RuleId::BiconditionalEquivalence, RuleId::BiconditionalCommutation, RuleId::BiconditionalAssociation, RuleId::BiconditionalReduction, RuleId::BiconditionalComplement, RuleId::BiconditionalIdentity, RuleId::BiconditionalNegation, RuleId::BiconditionalSubstitution, RuleId::BicondReduction]);
    }
    r
}

/// The rule catalog as a lookup table from rule identifier to schema.
pub struct RuleTable {
    entries: Vec<(RuleId, RewriteRule)>,
}

/// The map denoted by the table's entries; later entries win.
pub open spec fn table_map(ps: Seq<(RuleId, RewriteRule)>) -> Map<RuleId, Seq<(Form, Form)>>
    decreases ps.len(),
{
    if ps.len() == 0 {
        Map::empty()
    } else {
        table_map(ps.drop_last()).insert(ps.last().0, ps.last().1@)
    }
}

impl View for RuleTable {
    type V = Map<RuleId, Seq<(Form, Form)>>;

    closed spec fn view(&self) -> Map<RuleId, Seq<(Form, Form)>> {
        table_map(self.entries@)
    }
}

proof fn lemma_table_found(ps: Seq<(RuleId, RewriteRule)>, i: int)
    requires
        0 <= i < ps.len(),
        forall|j: int| i < j < ps.len() ==> (#[trigger] ps[j]).0 != ps[i].0,
    ensures
        table_map(ps).contains_key(ps[i].0),
        table_map(ps)[ps[i].0] == ps[i].1@,
    decreases ps.len(),
{
    if i == ps.len() - 1 {
    } else {
        assert(ps.drop_last()[i] == ps[i]);
        lemma_table_found(ps.drop_last(), i);
    }
}

proof fn lemma_table_missing(ps: Seq<(RuleId, RewriteRule)>, id: RuleId)
    requires
        forall|j: int| 0 <= j < ps.len() ==> (#[trigger] ps[j]).0 != id,
    ensures
        !table_map(ps).contains_key(id),
    decreases ps.len(),
{
    if ps.len() > 0 {
        lemma_table_missing(ps.drop_last(), id);
    }
}

impl RuleTable {
    /// Look a rule up by its identifier.
    pub fn get(&self, id: RuleId) -> (r: Option<&RewriteRule>)
        ensures
            match r {
                Some(rr) => self@.contains_key(id) && rr@ == self@[id],
                None => !self@.contains_key(id),
            },
    {
        let mut i: usize = self.entries.len();
        #[verifier::loop_isolation(false)]
        while i > 0
            invariant
                0 <= i <= self.entries.len(),
                forall|j: int| i <= j < self.entries.len() ==> (#[trigger] self.entries[j]).0 != id,
            decreases i,
        {
            i = i - 1;
            if self.entries[i].0 == id {
                proof {
                    lemma_table_found(self.entries@, i as int);
                }
                return Some(&self.entries[i].1);
            }
        }
        proof {
            lemma_table_missing(self.entries@, id);
        }
        None
    }

    /// The standard catalog: every named equivalence schema under its
    /// identifier — each mapped to exactly the clause list its builder
    /// states — and no entry for the placeholder rule, which licenses
    /// nothing.
    #[verifier::rlimit(100)]
    pub fn standard() -> (r: RuleTable)
        ensures
            r@.contains_key(RuleId::DoubleNegation),
            r@[RuleId::DoubleNegation] == seq![(neg(neg(mv("P"@))), mv("P"@))],
            r@.contains_key(RuleId::Distribution),
            r@[RuleId::Distribution] == seq![(disj(conj(mv("P"@), mv("Q"@)), conj(mv("P"@), mv("R"@))), conj(mv("P"@), disj(mv("Q"@), mv("R"@)))), (conj(disj(mv("P"@), mv("Q"@)), disj(mv("P"@), mv("R"@))), disj(mv("P"@), conj(mv("Q"@), mv("R"@))))],
            r@.contains_key(RuleId::Identity),
            r@[RuleId::Identity] == seq![(conj(mv("phi"@), Form::Taut), mv("phi"@)), (disj(mv("phi"@), Form::Contra), mv("phi"@))],
            r@.contains_key(RuleId::Annihilation),
            r@[RuleId::Annihilation] == seq![(conj(mv("phi"@), Form::Contra), Form::Contra), (disj(mv("phi"@), Form::Taut), Form::Taut)],
            r@.contains_key(RuleId::Inverse),
            r@[RuleId::Inverse] == seq![(neg(Form::Taut), Form::Contra), (neg(Form::Contra), Form::Taut)],
            r@.contains_key(RuleId::ConditionalAbsorption),
            r@[RuleId::ConditionalAbsorption] == seq![(conj(mv("phi"@), cond(neg(mv("phi"@)), mv("psi"@))), mv("phi"@)), (conj(mv("psi"@), cond(mv("phi"@), mv("psi"@))), mv("psi"@))],
            r@.contains_key(RuleId::ConditionalComplement),
            r@[RuleId::ConditionalComplement] == seq![(cond(mv("phi"@), mv("phi"@)), Form::Taut)],
            r@.contains_key(RuleId::ConditionalIdentity),
            r@[RuleId::ConditionalIdentity] == seq![(cond(mv("phi"@), Form::Contra), neg(mv("phi"@))), (cond(Form::Taut, mv("phi"@)), mv("phi"@))],
            r@.contains_key(RuleId::ConditionalAnnihilation),
            r@[RuleId::ConditionalAnnihilation] == seq![(cond(mv("phi"@), Form::Taut), Form::Taut), (cond(Form::Contra, mv("phi"@)), Form::Taut)],
            r@.contains_key(RuleId::ConditionalImplication),
            r@[RuleId::ConditionalImplication] == seq![(cond(mv("phi"@), mv("psi"@)), disj(neg(mv("phi"@)), mv("psi"@))), (neg(cond(mv("phi"@), mv("psi"@))), conj(mv("phi"@), neg(mv("psi"@))))],
            r@.contains_key(RuleId::ConditionalContraposition),
            r@[RuleId::ConditionalContraposition] == seq![(cond(neg(mv("phi"@)), neg(mv("psi"@))), cond(mv("psi"@), mv("phi"@)))],
            r@.contains_key(RuleId::ConditionalExportation),
            r@[RuleId::ConditionalExportation] == seq![(cond(mv("phi"@), cond(mv("psi"@), mv("lambda"@))), cond(conj(mv("phi"@), mv("psi"@)), mv("lambda"@)))],
            r@.contains_key(RuleId::ConditionalDistribution),
            r@[RuleId::ConditionalDistribution] == seq![(cond(mv("phi"@), conj(mv("psi"@), mv("lambda"@))), conj(cond(mv("phi"@), mv("psi"@)), cond(mv("phi"@), mv("lambda"@)))), (cond(disj(mv("phi"@), mv("psi"@)), mv("lambda"@)), conj(cond(mv("phi"@), mv("lambda"@)), cond(mv("psi"@), mv("lambda"@)))), (cond(mv("phi"@), disj(mv("psi"@), mv("lambda"@))), disj(cond(mv("phi"@), mv("psi"@)), cond(mv("phi"@), mv("lambda"@)))), (cond(conj(mv("phi"@), mv("psi"@)), mv("lambda"@)), disj(cond(mv("phi"@), mv("lambda"@)), cond(mv("psi"@), mv("lambda"@))))],
            r@.contains_key(RuleId::ConditionalReduction),
            r@[RuleId::ConditionalReduction] == seq![(conj(mv("phi"@), cond(mv("phi"@), mv("psi"@))), conj(mv("phi"@), mv("psi"@))), (conj(neg(mv("psi"@)), cond(mv("phi"@), mv("psi"@))), conj(neg(mv("psi"@)), neg(mv("phi"@))))],
            r@.contains_key(RuleId::KnightsAndKnaves),
            r@[RuleId::KnightsAndKnaves] == seq![(bicond(mv("phi"@), conj(mv("phi"@), mv("psi"@))), cond(mv("phi"@), mv("psi"@))), (bicond(mv("phi"@), disj(mv("phi"@), mv("psi"@))), cond(mv("psi"@), mv("phi"@)))],
            r@.contains_key(RuleId::ConditionalIdempotence),
            r@[RuleId::ConditionalIdempotence] == seq![(cond(mv("phi"@), neg(mv("phi"@))), neg(mv("phi"@))), (cond(neg(mv("phi"@)), mv("phi"@)), mv("phi"@))],
            r@.contains_key(RuleId::BiconditionalEquivalence),
            r@[RuleId::BiconditionalEquivalence] == seq![(conj(cond(mv("phi"@), mv("psi"@)), cond(mv("psi"@), mv("phi"@))), bicond(mv("phi"@), mv("psi"@))), (disj(conj(mv("phi"@), mv("psi"@)), conj(neg(mv("phi"@)), neg(mv("psi"@)))), bicond(mv("phi"@), mv("psi"@)))],
            r@.contains_key(RuleId::BiconditionalCommutation),
            r@[RuleId::BiconditionalCommutation] == seq![(bicond(mv("phi"@), mv("psi"@)), bicond(mv("psi"@), mv("phi"@)))],
            r@.contains_key(RuleId::BiconditionalAssociation),
            r@[RuleId::BiconditionalAssociation] == seq![(bicond(mv("phi"@), bicond(mv("psi"@), mv("lambda"@))), bicond(bicond(mv("phi"@), mv("psi"@)), mv("lambda"@)))],
            r@.contains_key(RuleId::BiconditionalReduction),
            r@[RuleId::BiconditionalReduction] == seq![(conj(mv("phi"@), bicond(mv("phi"@), mv("psi"@))), conj(mv("phi"@), mv("psi"@))), (conj(neg(mv("phi"@)), bicond(mv("phi"@), mv("psi"@))), conj(neg(mv("phi"@)), neg(mv("psi"@))))],
            r@.contains_key(RuleId::BiconditionalComplement),
            r@[RuleId::BiconditionalComplement] == seq![(bicond(mv("phi"@), mv("phi"@)), Form::Taut), (bicond(mv("phi"@), neg(mv("phi"@))), Form::Contra)],
            r@.contains_key(RuleId::BiconditionalIdentity),
            r@[RuleId::BiconditionalIdentity] == seq![(bicond(mv("phi"@), Form::Contra), neg(mv("phi"@))), (bicond(mv("phi"@), Form::Taut), mv("phi"@))],
            r@.contains_key(RuleId::BiconditionalNegation),
            r@[RuleId::BiconditionalNegation] == seq![(bicond(neg(mv("phi"@)), mv("psi"@)), neg(bicond(mv("phi"@), mv("psi"@)))), (bicond(mv("phi"@), neg(mv("psi"@))), neg(bicond(mv("phi"@), mv("psi"@))))],
            r@.contains_key(RuleId::BiconditionalSubstitution),
            r@[RuleId::BiconditionalSubstitution] == seq![(conj(bicond(mv("phi"@), mv("psi"@)), capp("S"@, mv("phi"@))), conj(bicond(mv("phi"@), mv("psi"@)), capp("S"@, mv("psi"@))))],
            r@.contains_key(RuleId::Conjunction),
            r@[RuleId::Conjunction] == seq![(conj(mv("phi"@), Form::Taut), mv("phi"@)), (conj(mv("phi"@), Form::Contra), Form::Contra)],
            r@.contains_key(RuleId::Disjunction),
            r@[RuleId::Disjunction] == seq![(disj(mv("phi"@), Form::Contra), mv("phi"@)), (disj(mv("phi"@), Form::Taut), Form::Taut)],
            r@.contains_key(RuleId::Negation),
            r@[RuleId::Negation] == seq![(neg(Form::Taut), Form::Contra), (neg(Form::Contra), Form::Taut)],
            r@.contains_key(RuleId::BicondReduction),
            r@[RuleId::BicondReduction] == seq![(bicond(mv("phi"@), Form::Contra), neg(mv("phi"@))), (bicond(mv("phi"@), Form::Taut), mv("phi"@))],
            r@.contains_key(RuleId::CondReduction),
            r@[RuleId::CondReduction] == seq![(cond(mv("phi"@), Form::Taut), Form::Taut), (cond(Form::Contra, mv("phi"@)), Form::Taut), (cond(mv("phi"@), Form::Contra), neg(mv("phi"@))), (cond(Form::Taut, mv("phi"@)), mv("phi"@))],
            !r@.contains_key(RuleId::Empty),
    {
        let mut entries: Vec<(RuleId, RewriteRule)> = Vec::new();
        entries.push((RuleId::DoubleNegation, rule_double_negation()));
        entries.push((RuleId::Distribution, rule_distribution()));
        entries.push((RuleId::Identity, rule_identity()));
        entries.push((RuleId::Annihilation, rule_annihilation()));
        entries.push((RuleId::Inverse, rule_inverse()));
        entries.push((RuleId::ConditionalAbsorption, rule_conditional_absorption()));
        entries.push((RuleId::ConditionalComplement, rule_conditional_complement()));
        entries.push((RuleId::ConditionalIdentity, rule_conditional_identity()));
        entries.push((RuleId::ConditionalAnnihilation, rule_conditional_annihilation()));
        entries.push((RuleId::ConditionalImplication, rule_conditional_implication()));
        entries.push((RuleId::ConditionalContraposition, rule_conditional_contraposition()));
        entries.push((RuleId::ConditionalExportation, rule_conditional_exportation()));
        entries.push((RuleId::ConditionalDistribution, rule_conditional_distribution()));
        entries.push((RuleId::ConditionalReduction, rule_conditional_reduction()));
        entries.push((RuleId::KnightsAndKnaves, rule_knights_and_knaves()));
        entries.push((RuleId::ConditionalIdempotence, rule_conditional_idempotence()));
        entries.push((RuleId::BiconditionalEquivalence, rule_biconditional_equivalence()));
        entries.push((RuleId::BiconditionalCommutation, rule_biconditional_commutation()));
        entries.push((RuleId::BiconditionalAssociation, rule_biconditional_association()));
        entries.push((RuleId::BiconditionalReduction, rule_biconditional_reduction()));
        entries.push((RuleId::BiconditionalComplement, rule_biconditional_complement()));
        entries.push((RuleId::BiconditionalIdentity, rule_biconditional_identity()));
        entries.push((RuleId::BiconditionalNegation, rule_biconditional_negation()));
        entries.push((RuleId::BiconditionalSubstitution, rule_biconditional_substitution()));
        entries.push((RuleId::Conjunction, rule_conjunction()));
        entries.push((RuleId::Disjunction, rule_disjunction()));
        entries.push((RuleId::Negation, rule_negation()));
        entries.push((RuleId::BicondReduction, rule_bicond_reduction()));
        entries.push((RuleId::CondReduction, rule_cond_reduction()));
        let r = RuleTable { entries };
        proof {
            let ps = r.entries@;
            assert(ps[0].0 == RuleId::DoubleNegation);
            assert(ps[1].0 == RuleId::Distribution);
            assert(ps[2].0 == RuleId::Identity);
            assert(ps[3].0 == RuleId::Annihilation);
            assert(ps[4].0 == RuleId::Inverse);
            assert(ps[5].0 == RuleId::ConditionalAbsorption);
            assert(ps[6].0 == RuleId::ConditionalComplement);
            assert(ps[7].0 == RuleId::ConditionalIdentity);
            assert(ps[8].0 == RuleId::ConditionalAnnihilation);
            assert(ps[9].0 == RuleId::ConditionalImplication);
            assert(ps[10].0 == RuleId::ConditionalContraposition);
            assert(ps[11].0 == RuleId::ConditionalExportation);
            assert(ps[12].0 == RuleId::ConditionalDistribution);
            assert(ps[13].0 == RuleId::ConditionalReduction);
            assert(ps[14].0 == RuleId::KnightsAndKnaves);
            assert(ps[15].0 == RuleId::ConditionalIdempotence);
            assert(ps[16].0 == RuleId::BiconditionalEquivalence);
            assert(ps[17].0 == RuleId::BiconditionalCommutation);
            assert(ps[18].0 == RuleId::BiconditionalAssociation);
            assert(ps[19].0 == RuleId::BiconditionalReduction);
            assert(ps[20].0 == RuleId::BiconditionalComplement);
            assert(ps[21].0 == RuleId::BiconditionalIdentity);
            assert(ps[22].0 == RuleId::BiconditionalNegation);
            assert(ps[23].0 == RuleId::BiconditionalSubstitution);
            assert(ps[24].0 == RuleId::Conjunction);
            assert(ps[25].0 == RuleId::Disjunction);
            assert(ps[26].0 == RuleId::Negation);
            assert(ps[27].0 == RuleId::BicondReduction);
            assert(ps[28].0 == RuleId::CondReduction);
            lemma_table_found(ps, 0);
            lemma_table_found(ps, 1);
            lemma_table_found(ps, 2);
            lemma_table_found(ps, 3);
            lemma_table_found(ps, 4);
            lemma_table_found(ps, 5);
            lemma_table_found(ps, 6);
            lemma_table_found(ps, 7);
            lemma_table_found(ps, 8);
            lemma_table_found(ps, 9);
            lemma_table_found(ps, 10);
            lemma_table_found(ps, 11);
            lemma_table_found(ps, 12);
            lemma_table_found(ps, 13);
            lemma_table_found(ps, 14);
            lemma_table_found(ps, 15);
            lemma_table_found(ps, 16);
            lemma_table_found(ps, 17);
            lemma_table_found(ps, 18);
            lemma_table_found(ps, 19);
            lemma_table_found(ps, 20);
            lemma_table_found(ps, 21);
            lemma_table_found(ps, 22);
            lemma_table_found(ps, 23);
            lemma_table_found(ps, 24);
            lemma_table_found(ps, 25);
            lemma_table_found(ps, 26);
            lemma_table_found(ps, 27);
            lemma_table_found(ps, 28);
            lemma_table_missing(ps, RuleId::Empty);
        }
        r
    }
}

} // verus!

