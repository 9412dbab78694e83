//! The pattern matcher.
//!
//! A pattern is an expression in which every name is a metavariable. A
//! bare metavariable matches any candidate subexpression, consistently
//! across repeated occurrences. A functional metavariable `S(p)` matches
//! a candidate by abstracting the value of `p` out of the candidate at
//! every occurrence, producing a substitution context (an expression with
//! `Hole` markers); repeated uses of `S` must produce the same context.
//! Matching is purely syntactic: no logical normalization is applied.

use vstd::prelude::*;

use crate::expr::Expr;
use crate::expr::Form;

verus! {

/// The bindings produced by a match: metavariable name to bound
/// subexpression, or to a substitution context for functional
/// metavariables.
pub struct Bindings {
    pairs: Vec<(String, Expr)>,
}

/// The map denoted by an association list; later entries win.
pub open spec fn map_of(ps: Seq<(String, Expr)>) -> Map<Seq<char>, Form>
    decreases ps.len(),
{
    if ps.len() == 0 {
        Map::empty()
    } else {
        map_of(ps.drop_last()).insert(ps.last().0@, ps.last().1@)
    }
}

impl View for Bindings {
    type V = Map<Seq<char>, Form>;

    closed spec fn view(&self) -> Map<Seq<char>, Form> {
        map_of(self.pairs@)
    }
}

proof fn lemma_map_of_found(ps: Seq<(String, Expr)>, i: int)
    requires
        0 <= i < ps.len(),
        forall|j: int| i < j < ps.len() ==> (#[trigger] ps[j]).0@ != ps[i].0@,
    ensures
        map_of(ps).contains_key(ps[i].0@),
        map_of(ps)[ps[i].0@] == ps[i].1@,
    decreases ps.len(),
{
    if i == ps.len() - 1 {
    } else {
        assert(ps.drop_last()[i] == ps[i]);
        lemma_map_of_found(ps.drop_last(), i);
    }
}

proof fn lemma_map_of_missing(ps: Seq<(String, Expr)>, name: Seq<char>)
    requires
        forall|j: int| 0 <= j < ps.len() ==> (#[trigger] ps[j]).0@ != name,
    ensures
        !map_of(ps).contains_key(name),
    decreases ps.len(),
{
    if ps.len() > 0 {
        lemma_map_of_missing(ps.drop_last(), name);
    }
}

impl Bindings {
    /// No bindings.
    pub fn empty() -> (r: Bindings)
        ensures
            r@ == Map::<Seq<char>, Form>::empty(),
    {
        Bindings { pairs: Vec::new() }
    }

    /// Look a name up; the latest binding of the name wins.
    pub fn get(&self, name: &String) -> (r: Option<&Expr>)
        ensures
            match r {
                Some(e) => self@.contains_key(name@) && e@ == self@[name@],
                None => !self@.contains_key(name@),
            },
    {
        let mut i: usize = self.pairs.len();
        #[verifier::loop_isolation(false)]
        while i > 0
            invariant
                0 <= i <= self.pairs.len(),
                forall|j: int| i <= j < self.pairs.len() ==> (#[trigger] self.pairs[j]).0@ != name@,
            decreases i,
        {
            i = i - 1;
            if self.pairs[i].0.eq(name) {
                proof {
                    lemma_map_of_found(self.pairs@, i as int);
                }
                return Some(&self.pairs[i].1);
            }
        }
        proof {
            lemma_map_of_missing(self.pairs@, name@);
        }
        None
    }

    /// Record a binding for a name.
    pub fn put(&mut self, name: &String, e: Expr)
        ensures
            final(self)@ == old(self)@.insert(name@, e@),
    {
        let ghost ps = self.pairs@;
        let pair = (name.clone(), e);
        let ghost p = pair;
        self.pairs.push(pair);
        proof {
            assert(self.pairs@.drop_last() =~= ps);
            assert(map_of(self.pairs@) == map_of(ps).insert(p.0@, p.1@));
        }
    }
}

/// Fill the holes of a substitution context `k` with `w`.
pub open spec fn apply_ctx(k: Form, w: Form) -> Form
    decreases k,
{
    match k {
        Form::Hole => w,
        Form::Taut => Form::Taut,
        Form::Contra => Form::Contra,
        Form::App { name, args } => Form::App {
            name,
            args: Seq::new(
                args.len(),
                |i: int|
                    if 0 <= i < args.len() {
                        apply_ctx(args[i], w)
                    } else {
                        Form::Taut
                    },
            ),
        },
        Form::Not { inner } => Form::Not { inner: Box::new(apply_ctx(*inner, w)) },
        Form::Bin { op, left, right } => Form::Bin {
            op,
            left: Box::new(apply_ctx(*left, w)),
            right: Box::new(apply_ctx(*right, w)),
        },
    }
}

/// Abstract `v` out of `c`: replace every subexpression equal to `v`
/// by a hole, yielding the substitution context of `c` at `v`.
pub open spec fn abstract_ctx(c: Form, v: Form) -> Form
    decreases c,
{
    if c == v {
        Form::Hole
    } else {
        match c {
            Form::App { name, args } => Form::App {
                name,
                args: Seq::new(
                    args.len(),
                    |i: int|
                        if 0 <= i < args.len() {
                            abstract_ctx(args[i], v)
                        } else {
                            Form::Taut
                        },
                ),
            },
            Form::Not { inner } => Form::Not { inner: Box::new(abstract_ctx(*inner, v)) },
            Form::Bin { op, left, right } => Form::Bin {
                op,
                left: Box::new(abstract_ctx(*left, v)),
                right: Box::new(abstract_ctx(*right, v)),
            },
            _ => c,
        }
    }
}

/// Instantiate a pattern under bindings: a bare metavariable becomes its
/// bound expression, a functional metavariable application becomes its
/// bound context applied to the instantiated argument. `None` when the
/// pattern uses an unbound metavariable or a shape the matcher does not
/// support (a metavariable applied to two or more arguments).
pub open spec fn inst(p: Form, b: Map<Seq<char>, Form>) -> Option<Form>
    decreases p,
{
    match p {
        Form::Taut => Some(Form::Taut),
        Form::Contra => Some(Form::Contra),
        Form::Hole => None,
        Form::App { name, args } => {
            if !b.contains_key(name) {
                None
            } else if args.len() == 0 {
                Some(b[name])
            } else if args.len() == 1 {
                match inst(args[0], b) {
                    Some(w) => Some(apply_ctx(b[name], w)),
                    None => None,
                }
            } else {
                None
            }
        },
        Form::Not { inner } => match inst(*inner, b) {
            Some(w) => Some(Form::Not { inner: Box::new(w) }),
            None => None,
        },
        Form::Bin { op, left, right } => match (inst(*left, b), inst(*right, b)) {
            (Some(l2), Some(r2)) => Some(Form::Bin { op, left: Box::new(l2), right: Box::new(r2) }),
            _ => None,
        },
    }
}

/// Match a pattern against a candidate under the bindings accumulated so
/// far. Structural descent; a bare metavariable binds the candidate (or
/// must agree with its earlier binding), a functional metavariable binds
/// the substitution context obtained by abstracting its instantiated
/// argument out of the candidate (or must agree with its earlier
/// context). Mismatch yields `None`: it is an ordinary outcome, not an
/// error.
pub open spec fn do_match(p: Form, c: Form, b: Map<Seq<char>, Form>) -> Option<
    Map<Seq<char>, Form>,
>
    decreases p,
{
    match p {
        Form::Taut => if c is Taut {
            Some(b)
        } else {
            None
        },
        Form::Contra => if c is Contra {
            Some(b)
        } else {
            None
        },
        Form::Hole => None,
        Form::App { name, args } => {
            if args.len() == 0 {
                if b.contains_key(name) {
                    if b[name] == c {
                        Some(b)
                    } else {
                        None
                    }
                } else {
                    Some(b.insert(name, c))
                }
            } else if args.len() == 1 {
                match inst(args[0], b) {
                    Some(v) => {
                        let k = abstract_ctx(c, v);
                        if b.contains_key(name) {
                            if b[name] == k {
                                Some(b)
                            } else {
                                None
                            }
                        } else {
                            Some(b.insert(name, k))
                        }
                    },
                    None => None,
                }
            } else {
                None
            }
        },
        Form::Not { inner } => match c {
            Form::Not { inner: ci } => do_match(*inner, *ci, b),
            _ => None,
        },
        Form::Bin { op, left, right } => match c {
            Form::Bin { op: cop, left: cl, right: cr } => {
                if op == cop {
                    match do_match(*left, *cl, b) {
                        Some(b2) => do_match(*right, *cr, b2),
                        None => None,
                    }
                } else {
                    None
                }
            },
            _ => None,
        },
    }
}

/// Fill the holes of the context `k` with `w` (executable form of
/// `apply_ctx`).
pub fn ctx_apply(k: &Expr, w: &Expr) -> (r: Expr)
    ensures
        r@ == apply_ctx(k@, w@),
    decreases *k,
{
    match k {
        Expr::Hole => w.dup(),
        Expr::Taut => Expr::Taut,
        Expr::Contra => Expr::Contra,
        Expr::App { name, args } => {
            let mut out: Vec<Expr> = Vec::new();
            let mut i: usize = 0;
            #[verifier::loop_isolation(false)]
            while i < args.len()
                invariant
                    0 <= i <= args.len(),
                    out.len() == i,
                    forall|j: int| 0 <= j < i ==> (#[trigger] out[j])@ == apply_ctx(args[j]@, w@),
                decreases args.len() - i,
            {
                proof {
                    assert(decreases_to!(*args => args[i as int]));
                    assert(decreases_to!(*k => *args));
                }
                let d = ctx_apply(&args[i], w);
                out.push(d);
                i += 1;
            }
            let r = Expr::App { name: name.clone(), args: out };
            proof {
                let m = r@;
                let s = apply_ctx(k@, w@);
                assert(k@ is App);
                assert(k@->App_args.len() == args.len());
                assert(forall|j: int|
                    0 <= j < args.len() ==> #[trigger] k@->App_args[j] == args[j]@);
                assert(m is App && s is App);
                assert(m->App_args =~= s->App_args);
                assert(m =~= s);
            }
            r
        },
        Expr::Not { inner } => Expr::Not { inner: Box::new(ctx_apply(inner, w)) },
        Expr::Bin { op, left, right } => Expr::Bin {
            op: *op,
            left: Box::new(ctx_apply(left, w)),
            right: Box::new(ctx_apply(right, w)),
        },
    }
}

/// Abstract `v` out of `c` (executable form of `abstract_ctx`).
pub fn abstract_out(c: &Expr, v: &Expr) -> (r: Expr)
    ensures
        r@ == abstract_ctx(c@, v@),
    decreases *c,
{
    if c.eq_expr(v) {
        return Expr::Hole;
    }
    match c {
        Expr::Taut => Expr::Taut,
        Expr::Contra => Expr::Contra,
        Expr::Hole => Expr::Hole,
        Expr::App { name, args } => {
            let mut out: Vec<Expr> = Vec::new();
            let mut i: usize = 0;
            #[verifier::loop_isolation(false)]
            while i < args.len()
                invariant
                    0 <= i <= args.len(),
                    out.len() == i,
                    forall|j: int|
                        0 <= j < i ==> (#[trigger] out[j])@ == abstract_ctx(args[j]@, v@),
                decreases args.len() - i,
            {
                proof {
                    assert(decreases_to!(*args => args[i as int]));
                    assert(decreases_to!(*c => *args));
                }
                let d = abstract_out(&args[i], v);
                out.push(d);
                i += 1;
            }
            let r = Expr::App { name: name.clone(), args: out };
            proof {
                let m = r@;
                let s = abstract_ctx(c@, v@);
                assert(c@ is App);
                assert(forall|j: int|
                    0 <= j < args.len() ==> #[trigger] c@->App_args[j] == args[j]@);
                assert(m is App && s is App);
                assert(m->App_args =~= s->App_args);
                assert(m =~= s);
            }
            r
        },
        Expr::Not { inner } => Expr::Not { inner: Box::new(abstract_out(inner, v)) },
        Expr::Bin { op, left, right } => Expr::Bin {
            op: *op,
            left: Box::new(abstract_out(left, v)),
            right: Box::new(abstract_out(right, v)),
        },
    }
}

/// Instantiate a pattern under bindings (executable form of `inst`).
pub fn instantiate(p: &Expr, b: &Bindings) -> (r: Option<Expr>)
    ensures
        match r {
            Some(e) => inst(p@, b@) == Some(e@),
            None => inst(p@, b@) is None,
        },
    decreases *p,
{
    match p {
        Expr::Taut => Some(Expr::Taut),
        Expr::Contra => Some(Expr::Contra),
        Expr::Hole => None,
        Expr::App { name, args } => {
            let bound = b.get(name);
            match bound {
                None => None,
                Some(e) => {
                    if args.len() == 0 {
                        Some(e.dup())
                    } else if args.len() == 1 {
                        proof {
                            assert(decreases_to!(*args => args[0]));
                            assert(decreases_to!(*p => *args));
                            assert(p@ is App);
                            assert(p@->App_args[0] == args[0]@);
                        }
                        let k = e.dup();
                        match instantiate(&args[0], b) {
                            Some(w) => Some(ctx_apply(&k, &w)),
                            None => None,
                        }
                    } else {
                        None
                    }
                },
            }
        },
        Expr::Not { inner } => match instantiate(inner, b) {
            Some(w) => Some(Expr::Not { inner: Box::new(w) }),
            None => None,
        },
        Expr::Bin { op, left, right } => match instantiate(left, b) {
            Some(l2) => match instantiate(right, b) {
                Some(r2) => Some(Expr::Bin { op: *op, left: Box::new(l2), right: Box::new(r2) }),
                None => None,
            },
            None => None,
        },
    }
}

/// Match a pattern against a candidate, extending the given bindings
/// (executable form of `do_match`).
pub fn match_at(p: &Expr, c: &Expr, b: Bindings) -> (r: Option<Bindings>)
    ensures
        match r {
            Some(b2) => do_match(p@, c@, b@) == Some(b2@),
            None => do_match(p@, c@, b@) is None,
        },
    decreases *p,
{
    match p {
        Expr::Taut => match c {
            Expr::Taut => Some(b),
            _ => None,
        },
        Expr::Contra => match c {
            Expr::Contra => Some(b),
            _ => None,
        },
        Expr::Hole => None,
        Expr::App { name, args } => {
            if args.len() == 0 {
                let prior = b.get(name);
                match prior {
                    Some(e) => {
                        if e.eq_expr(c) {
                            Some(b)
                        } else {
                            None
                        }
                    },
                    None => {
                        let mut b2 = b;
                        b2.put(name, c.dup());
                        Some(b2)
                    },
                }
            } else if args.len() == 1 {
                proof {
                    assert(decreases_to!(*args => args[0]));
                    assert(decreases_to!(*p => *args));
                    assert(p@ is App);
                    assert(p@->App_args[0] == args[0]@);
                }
                match instantiate(&args[0], &b) {
                    Some(v) => {
                        let k = abstract_out(c, &v);
                        let prior = b.get(name);
                        match prior {
                            Some(e) => {
                                if e.eq_expr(&k) {
                                    Some(b)
                                } else {
                                    None
                                }
                            },
                            None => {
                                let mut b2 = b;
                                b2.put(name, k);
                                Some(b2)
                            },
                        }
                    },
                    None => None,
                }
            } else {
                None
            }
        },
        Expr::Not { inner } => match c {
            Expr::Not { inner: ci } => match_at(inner, ci, b),
            _ => None,
        },
        Expr::Bin { op, left, right } => match c {
            Expr::Bin { op: cop, left: cl, right: cr } => {
                if *op == *cop {
                    match match_at(left, cl, b) {
                        Some(b2) => match_at(right, cr, b2),
                        None => None,
                    }
                } else {
                    None
                }
            },
            _ => None,
        },
    }
}

/// Binding consistency: a pattern that repeats one bare metavariable
/// across both operands of a connective matches a candidate of that
/// connective exactly when the two candidate operands are equal — the
/// second occurrence must agree with the binding of the first.
pub proof fn lemma_repeated_metavariable(n: Seq<char>, op: crate::expr::BinKind, a: Form, b: Form)
    ensures
        ({
            let mv = Form::App { name: n, args: Seq::<Form>::empty() };
            let p = Form::Bin { op, left: Box::new(mv), right: Box::new(mv) };
            let c = Form::Bin { op, left: Box::new(a), right: Box::new(b) };
            do_match(p, c, Map::<Seq<char>, Form>::empty()) is Some <==> a == b
        }),
{
    let mv = Form::App { name: n, args: Seq::<Form>::empty() };
    let p = Form::Bin { op, left: Box::new(mv), right: Box::new(mv) };
    let c = Form::Bin { op, left: Box::new(a), right: Box::new(b) };
    let b0 = Map::<Seq<char>, Form>::empty();
    assert(!b0.contains_key(n));
    assert(do_match(mv, a, b0) == Some(b0.insert(n, a)));
    let b1 = b0.insert(n, a);
    assert(b1.contains_key(n) && b1[n] == a);
    assert(do_match(mv, b, b1) == (if a == b {
        Some(b1)
    } else {
        None::<Map<Seq<char>, Form>>
    }));
}

} // verus!
