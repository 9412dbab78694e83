//! Immutable tree representation of propositional formulas.
//!
//! An expression is a value type: once built it is never mutated, and two
//! expressions are interchangeable exactly when their models (`@`) are
//! equal. No normalization is ever applied: `P & Q` and `Q & P` are
//! different expressions even though they are semantically equivalent.

use vstd::prelude::*;

verus! {

/// The binary connectives.
#[derive(Debug, Clone, Copy, PartialEq, Eq, Structural)]
pub enum BinKind {
    /// Conjunction `&`
    And,
    /// Disjunction `|`
    Or,
    /// Conditional `->`
    Implies,
    /// Biconditional `<->`
    Iff,
}

/// The mathematical model of a formula: names are character sequences,
/// argument lists are sequences. `Hole` is the marker left where a
/// subexpression was abstracted out of a substitution context; it never
/// occurs in a user formula.
#[verifier::ext_equal]
pub enum Form {
    /// The true atom.
    Taut,
    /// The false atom.
    Contra,
    /// A variable or predicate application.
    App { name: Seq<char>, args: Seq<Form> },
    /// Negation.
    Not { inner: Box<Form> },
    /// A binary connective applied to two operands.
    Bin { op: BinKind, left: Box<Form>, right: Box<Form> },
    /// The marker of a substitution context.
    Hole,
}

/// A propositional formula.
///
/// `App` carries a name and zero or more argument expressions; a bare
/// variable is the zero-argument case. In a pattern, every name is a
/// metavariable, and an applied name such as `S(phi)` is a functional
/// metavariable standing for a substitution context. `Hole` is produced
/// only by context extraction (see the matcher); user formulas never
/// contain it.
#[derive(Debug)]
pub enum Expr {
    /// The true atom.
    Taut,
    /// The false atom.
    Contra,
    /// A variable or predicate application: a name with arguments.
    App { name: String, args: Vec<Expr> },
    /// Negation.
    Not { inner: Box<Expr> },
    /// A binary connective applied to two operands.
    Bin { op: BinKind, left: Box<Expr>, right: Box<Expr> },
    /// The marker of a substitution context.
    Hole,
}

impl Expr {
    /// The model of this expression.
    pub open spec fn model(self) -> Form
        decreases self,
    {
        match self {
            Expr::Taut => Form::Taut,
            Expr::Contra => Form::Contra,
            Expr::App { name, args } => Form::App {
                name: name@,
                args: Seq::new(
                    args.len() as nat,
                    |i: int|
                        if 0 <= i < args.len() {
                            args[i].model()
                        } else {
                            Form::Taut
                        },
                ),
            },
            Expr::Not { inner } => Form::Not { inner: Box::new((*inner).model()) },
            Expr::Bin { op, left, right } => Form::Bin {
                op,
                left: Box::new((*left).model()),
                right: Box::new((*right).model()),
            },
            Expr::Hole => Form::Hole,
        }
    }
}

impl View for Expr {
    type V = Form;

    open spec fn view(&self) -> Form {
        (*self).model()
    }
}

impl DeepView for Expr {
    type V = Form;

    open spec fn deep_view(&self) -> Form {
        (*self).model()
    }
}

impl Expr {
    /// A bare variable: a name applied to no arguments.
    pub fn var(name: &str) -> (r: Expr)
        ensures
            r@ == (Form::App { name: name@, args: Seq::<Form>::empty() }),
    {
        let r = Expr::App { name: name.to_owned(), args: Vec::new() };
        proof {
            let m = r@;
            assert(m is App);
            assert(m->App_args =~= Seq::<Form>::empty());
            assert(m =~= Form::App { name: name@, args: Seq::<Form>::empty() });
        }
        r
    }

    /// A name applied to one argument, such as `S(phi)`.
    pub fn app1(name: &str, arg: Expr) -> (r: Expr)
        ensures
            r@ == (Form::App { name: name@, args: seq![arg@] }),
    {
        let ghost m = arg@;
        let mut args: Vec<Expr> = Vec::new();
        args.push(arg);
        let r = Expr::App { name: name.to_owned(), args };
        proof {
            let v = r@;
            assert(v is App);
            assert(v->App_args =~= seq![m]);
            assert(v =~= Form::App { name: name@, args: seq![m] });
        }
        r
    }

    /// Negation of an expression.
    pub fn not(inner: Expr) -> (r: Expr)
        ensures
            r@ == (Form::Not { inner: Box::new(inner@) }),
    {
        Expr::Not { inner: Box::new(inner) }
    }

    /// A binary connective node.
    pub fn bin(op: BinKind, left: Expr, right: Expr) -> (r: Expr)
        ensures
            r@ == (Form::Bin { op, left: Box::new(left@), right: Box::new(right@) }),
    {
        Expr::Bin { op, left: Box::new(left), right: Box::new(right) }
    }

    /// Conjunction of two expressions.
    pub fn and(left: Expr, right: Expr) -> (r: Expr)
        ensures
            r@ == (Form::Bin {
                op: BinKind::And,
                left: Box::new(left@),
                right: Box::new(right@),
            }),
    {
        Expr::bin(BinKind::And, left, right)
    }

    /// Disjunction of two expressions.
    pub fn or(left: Expr, right: Expr) -> (r: Expr)
        ensures
            r@ == (Form::Bin { op: BinKind::Or, left: Box::new(left@), right: Box::new(right@) }),
    {
        Expr::bin(BinKind::Or, left, right)
    }

    /// Conditional between two expressions.
    pub fn implies(left: Expr, right: Expr) -> (r: Expr)
        ensures
            r@ == (Form::Bin {
                op: BinKind::Implies,
                left: Box::new(left@),
                right: Box::new(right@),
            }),
    {
        Expr::bin(BinKind::Implies, left, right)
    }

    /// Biconditional between two expressions.
    pub fn iff(left: Expr, right: Expr) -> (r: Expr)
        ensures
            r@ == (Form::Bin {
                op: BinKind::Iff,
                left: Box::new(left@),
                right: Box::new(right@),
            }),
    {
        Expr::bin(BinKind::Iff, left, right)
    }

    /// Structural copy: the result has the same model as `self`.
    pub fn dup(&self) -> (r: Expr)
        ensures
            r@ == self@,
        decreases *self,
    {
        match self {
            Expr::Taut => Expr::Taut,
            Expr::Contra => Expr::Contra,
            Expr::Hole => Expr::Hole,
            Expr::App { name, args } => {
                let mut out: Vec<Expr> = Vec::new();
                let mut i: usize = 0;
                #[verifier::loop_isolation(false)]
                while i < args.len()
                    invariant
                        0 <= i <= args.len(),
                        out.len() == i,
                        forall|j: int| 0 <= j < i ==> (#[trigger] out[j])@ == args[j]@,
                    decreases args.len() - i,
                {
                    proof {
                        assert(decreases_to!(*args => args[i as int]));
                        assert(decreases_to!(*self => *args));
                    }
                    let d = args[i].dup();
                    out.push(d);
                    i += 1;
                }
                let r = Expr::App { name: name.clone(), args: out };
                proof {
                    let m = r@;
                    let s = self@;
                    assert(m is App && s is App);
                    assert(m->App_args =~= s->App_args);
                    assert(m =~= s);
                }
                r
            },
            Expr::Not { inner } => Expr::Not { inner: Box::new(inner.dup()) },
            Expr::Bin { op, left, right } => Expr::Bin {
                op: *op,
                left: Box::new(left.dup()),
                right: Box::new(right.dup()),
            },
        }
    }

    /// Decide structural equality of two expressions.
    pub fn eq_expr(&self, other: &Expr) -> (r: bool)
        ensures
            r == (self@ == other@),
        decreases *self,
    {
        match (self, other) {
            (Expr::Taut, Expr::Taut) => true,
            (Expr::Contra, Expr::Contra) => true,
            (Expr::Hole, Expr::Hole) => true,
            (Expr::App { name: n1, args: a1 }, Expr::App { name: n2, args: a2 }) => {
                if !n1.eq(n2) {
                    proof {
                        assert(self@ is App && other@ is App);
                        assert(self@->App_name == n1@ && other@->App_name == n2@);
                    }
                    return false;
                }
                if a1.len() != a2.len() {
                    proof {
                        assert(self@ is App && other@ is App);
                        assert(self@->App_args.len() == a1.len());
                        assert(other@->App_args.len() == a2.len());
                    }
                    return false;
                }
                let mut i: usize = 0;
                #[verifier::loop_isolation(false)]
                while i < a1.len()
                    invariant
                        0 <= i <= a1.len(),
                        forall|j: int| 0 <= j < i ==> (#[trigger] a1[j])@ == a2[j]@,
                    decreases a1.len() - i,
                {
                    proof {
                        assert(decreases_to!(*a1 => a1[i as int]));
                        assert(decreases_to!(*self => *a1));
                    }
                    if !a1[i].eq_expr(&a2[i]) {
                        proof {
                            let k = i as int;
                            assert(self@ is App && other@ is App);
                            assert(self@->App_args[k] == a1[k]@);
                            assert(other@->App_args[k] == a2[k]@);
                        }
                        return false;
                    }
                    i += 1;
                }
                proof {
                    let m = self@;
                    let o = other@;
                    assert(m is App && o is App);
                    assert(m->App_args =~= o->App_args);
                    assert(m =~= o);
                }
                true
            },
            (Expr::Not { inner: i1 }, Expr::Not { inner: i2 }) => i1.eq_expr(i2),
            (
                Expr::Bin { op: o1, left: l1, right: r1 },
                Expr::Bin { op: o2, left: l2, right: r2 },
            ) => *o1 == *o2 && l1.eq_expr(l2) && r1.eq_expr(r2),
            _ => false,
        }
    }
}

} // verus!
