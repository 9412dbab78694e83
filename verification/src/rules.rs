//! Rewrite rules: named, possibly multi-clause, bidirectional
//! equivalences built from pattern pairs.
//!
//! A rule licenses a step when some clause of it, read in either
//! direction, matches the step's cited dependency expressions and
//! instantiates to exactly the step's conclusion. No normalization is
//! applied beyond the matcher's binding discipline.

use vstd::prelude::*;

use crate::expr::BinKind;
use crate::expr::Expr;
use crate::expr::Form;
use crate::matcher::Bindings;
use crate::matcher::do_match;
use crate::matcher::inst;
use crate::matcher::instantiate;
use crate::matcher::match_at;

verus! {

/// Identifier of a rule of the catalog. `Empty` is the placeholder rule
/// of a freshly inserted step; it licenses nothing.
#[derive(Debug, Clone, Copy, PartialEq, Eq, Structural)]
pub enum RuleId {
    DoubleNegation,
    Distribution,
    Identity,
    Annihilation,
    Inverse,
    ConditionalAbsorption,
    ConditionalComplement,
    ConditionalIdentity,
    ConditionalAnnihilation,
    ConditionalImplication,
    ConditionalContraposition,
    ConditionalExportation,
    ConditionalDistribution,
    ConditionalReduction,
    KnightsAndKnaves,
    ConditionalIdempotence,
    BiconditionalEquivalence,
    BiconditionalCommutation,
    BiconditionalAssociation,
    BiconditionalReduction,
    BiconditionalComplement,
    BiconditionalIdentity,
    BiconditionalNegation,
    BiconditionalSubstitution,
    Conjunction,
    Disjunction,
    Negation,
    BicondReduction,
    CondReduction,
    Empty,
}

/// The named classification groups the catalog is partitioned into for
/// menu construction.
#[derive(Debug, Clone, Copy, PartialEq, Eq, Structural)]
pub enum RuleClassification {
    BooleanEquivalence,
    ConditionalEquivalence,
    BiconditionalEquivalence,
}

/// A named equivalence schema: an ordered list of `(pattern, pattern)`
/// clauses, each logically bidirectional.
pub struct RewriteRule {
    /// Display name of the rule.
    pub name: String,
    /// The clauses; each side is a pattern over metavariables.
    pub reductions: Vec<(Expr, Expr)>,
}

impl View for RewriteRule {
    type V = Seq<(Form, Form)>;

    open spec fn view(&self) -> Seq<(Form, Form)> {
        Seq::new(
            self.reductions@.len(),
            |i: int|
                if 0 <= i < self.reductions@.len() {
                    (self.reductions@[i].0@, self.reductions@[i].1@)
                } else {
                    (Form::Taut, Form::Taut)
                },
        )
    }
}

/// Match one pattern side against the cited dependency expressions,
/// threading bindings. One dependency matches the side whole; for two
/// or more, the side must be a conjunction whose conjuncts (left spine)
/// feed the dependencies in order, sharing consistent bindings.
pub open spec fn match_deps(side: Form, deps: Seq<Form>, b: Map<Seq<char>, Form>) -> Option<
    Map<Seq<char>, Form>,
>
    decreases deps.len(),
{
    if deps.len() == 0 {
        None
    } else if deps.len() == 1 {
        do_match(side, deps[0], b)
    } else {
        match side {
            Form::Bin { op: BinKind::And, left, right } => match match_deps(
                *left,
                deps.drop_last(),
                b,
            ) {
                Some(b2) => do_match(*right, deps.last(), b2),
                None => None,
            },
            _ => None,
        }
    }
}

/// One direction of one clause applies: the `from` side matches the
/// dependencies and the `to` side instantiates to exactly the
/// conclusion.
pub open spec fn applies_dir(from: Form, to: Form, concl: Form, deps: Seq<Form>) -> bool {
    match match_deps(from, deps, Map::empty()) {
        Some(b) => match inst(to, b) {
            Some(e) => e == concl,
            None => false,
        },
        None => false,
    }
}

/// A clause applies when either of its directions applies.
pub open spec fn clause_applies(cl: (Form, Form), concl: Form, deps: Seq<Form>) -> bool {
    applies_dir(cl.0, cl.1, concl, deps) || applies_dir(cl.1, cl.0, concl, deps)
}

/// A rule applies when some clause of it applies.
pub open spec fn rule_applies(reds: Seq<(Form, Form)>, concl: Form, deps: Seq<Form>) -> bool {
    exists|i: int| 0 <= i < reds.len() && clause_applies(#[trigger] reds[i], concl, deps)
}

/// Match/instantiate round trip: when a pattern side matches an
/// expression outright, instantiating the clause's other side under the
/// resulting bindings is accepted as an application of that clause, in
/// that direction, to that expression as the sole dependency.
pub proof fn lemma_match_instantiate_round_trip(from: Form, to: Form, e: Form, b: Map<Seq<char>, Form>, c: Form)
    requires
        do_match(from, e, Map::<Seq<char>, Form>::empty()) == Some(b),
        inst(to, b) == Some(c),
    ensures
        applies_dir(from, to, c, seq![e]),
{
    let deps = seq![e];
    assert(deps.len() == 1);
    assert(deps[0] == e);
    assert(match_deps(from, deps, Map::empty()) == Some(b));
}

fn match_deps_upto(side: &Expr, deps: &Vec<Expr>, n: usize, b: Bindings) -> (r: Option<Bindings>)
    requires
        1 <= n <= deps.len(),
    ensures
        match r {
            Some(b2) => match_deps(side@, deps.deep_view().subrange(0, n as int), b@) == Some(
                b2@,
            ),
            None => match_deps(side@, deps.deep_view().subrange(0, n as int), b@) is None,
        },
    decreases n,
{
    let ghost dv = deps.deep_view().subrange(0, n as int);
    proof {
        assert(dv.len() == n);
        assert(dv[n - 1] == deps.deep_view()[n - 1]);
        assert(deps.deep_view()[n - 1] == deps[n - 1 as int]@);
    }
    if n == 1 {
        let r = match_at(side, &deps[0], b);
        proof {
            assert(dv[0] == deps[0]@);
        }
        r
    } else {
        match side {
            Expr::Bin { op: BinKind::And, left, right } => {
                proof {
                    assert(dv.drop_last() =~= deps.deep_view().subrange(0, n - 1));
                    assert(side@ is Bin);
                }
                match match_deps_upto(left, deps, n - 1, b) {
                    Some(b2) => match_at(right, &deps[n - 1], b2),
                    None => None,
                }
            },
            _ => None,
        }
    }
}

/// One direction of a clause, executably: match `from` against the
/// dependencies, instantiate `to`, compare with the conclusion.
fn applies_dir_exec(from: &Expr, to: &Expr, concl: &Expr, deps: &Vec<Expr>) -> (r: bool)
    ensures
        r == applies_dir(from@, to@, concl@, deps.deep_view()),
{
    if deps.len() == 0 {
        return false;
    }
    proof {
        assert(deps.deep_view().subrange(0, deps.deep_view().len() as int) =~= deps.deep_view());
    }
    match match_deps_upto(from, deps, deps.len(), Bindings::empty()) {
        Some(b) => match instantiate(to, &b) {
            Some(e) => e.eq_expr(concl),
            None => false,
        },
        None => false,
    }
}

impl RewriteRule {
    /// Whether this rule licenses concluding `concl` from the cited
    /// dependency expressions `deps`: some clause, in some direction,
    /// matches the dependencies and instantiates to exactly `concl`.
    pub fn applies(&self, concl: &Expr, deps: &Vec<Expr>) -> (r: bool)
        ensures
            r == rule_applies(self@, concl@, deps.deep_view()),
    {
        let mut i: usize = 0;
        #[verifier::loop_isolation(false)]
        while i < self.reductions.len()
            invariant
                0 <= i <= self.reductions.len(),
                forall|j: int|
                    0 <= j < i ==> !clause_applies(#[trigger] self@[j], concl@, deps.deep_view()),
            decreases self.reductions.len() - i,
        {
            let (lhs, rhs) = (&self.reductions[i].0, &self.reductions[i].1);
            proof {
                assert(self@[i as int] == (lhs@, rhs@));
            }
            if applies_dir_exec(lhs, rhs, concl, deps) {
                return true;
            }
            if applies_dir_exec(rhs, lhs, concl, deps) {
                return true;
            }
            i += 1;
        }
        false
    }
}

} // verus!
