//! The truth-table oracle: a brute-force semantic check of the rule
//! catalog, run offline over the static clauses, never against user
//! proofs.
//!
//! For one clause it infers every free metavariable's arity, sizes a
//! truth table of `2^arity` slots per name, and checks that the two
//! pattern sides evaluate identically under every joint assignment of
//! all slots. A mismatch means the clause's sides are not
//! truth-functionally equivalent — a defect of the catalog itself.

use vstd::prelude::*;

use crate::expr::Expr;
use crate::expr::Form;
use crate::rules::RewriteRule;

verus! {

/// Powers of two.
pub open spec fn pow2(n: nat) -> nat
    decreases n,
{
    if n == 0 {
        1nat
    } else {
        2 * pow2((n - 1) as nat)
    }
}

/// The truth table of width `w` encoded by the number `v`: slot `i`
/// holds bit `i` of `v`.
pub open spec fn table_of(v: nat, w: nat) -> Seq<bool> {
    Seq::new(w, |i: int| v / pow2(i as nat) % 2 == 1)
}

/// Look a name up in an assignment (association list, first match
/// wins).
pub open spec fn env_lookup(env: Seq<(Seq<char>, Seq<bool>)>, name: Seq<char>) -> Option<
    Seq<bool>,
>
    decreases env.len(),
{
    if env.len() == 0 {
        None
    } else if env[0].0 == name {
        Some(env[0].1)
    } else {
        env_lookup(env.drop_first(), name)
    }
}

/// The table slot selected by a sequence of argument values: argument
/// `i` contributes bit `i`.
pub open spec fn slot_of(bs: Seq<bool>) -> nat
    decreases bs.len(),
{
    if bs.len() == 0 {
        0nat
    } else {
        (if bs[0] {
            1nat
        } else {
            0nat
        }) + 2 * slot_of(bs.drop_first())
    }
}

/// Evaluate a pattern side as a propositional function of the
/// assignment. An applied name evaluates its arguments to booleans and
/// indexes its table. `None` when a name is unassigned, a slot is out
/// of range, or a context marker is evaluated.
pub open spec fn eval(e: Form, env: Seq<(Seq<char>, Seq<bool>)>) -> Option<bool>
    decreases e, 1int,
{
    match e {
        Form::Taut => Some(true),
        Form::Contra => Some(false),
        Form::Hole => None,
        Form::App { name, args } => match eval_args(args, env) {
            Some(bs) => match env_lookup(env, name) {
                Some(table) => if slot_of(bs) < table.len() {
                    Some(table[slot_of(bs) as int])
                } else {
                    None
                },
                None => None,
            },
            None => None,
        },
        Form::Not { inner } => match eval(*inner, env) {
            Some(b) => Some(!b),
            None => None,
        },
        Form::Bin { op, left, right } => match (eval(*left, env), eval(*right, env)) {
            (Some(l), Some(r)) => Some(
                match op {
                    crate::expr::BinKind::And => l && r,
                    crate::expr::BinKind::Or => l || r,
                    crate::expr::BinKind::Implies => !l || r,
                    crate::expr::BinKind::Iff => l == r,
                },
            ),
            _ => None,
        },
    }
}

/// Evaluate an argument list to booleans; `None` when any argument has
/// none.
pub open spec fn eval_args(args: Seq<Form>, env: Seq<(Seq<char>, Seq<bool>)>) -> Option<Seq<bool>>
    decreases args, 0int,
{
    if args.len() == 0 {
        Some(Seq::<bool>::empty())
    } else {
        match eval(args[0], env) {
            Some(b) => match eval_args(args.drop_first(), env) {
                Some(rest) => Some(seq![b] + rest),
                None => None,
            },
            None => None,
        }
    }
}

/// Look a name up in an arity record (first match wins).
pub open spec fn ar_lookup(ar: Seq<(Seq<char>, nat)>, name: Seq<char>) -> Option<nat>
    decreases ar.len(),
{
    if ar.len() == 0 {
        None
    } else if ar[0].0 == name {
        Some(ar[0].1)
    } else {
        ar_lookup(ar.drop_first(), name)
    }
}

/// Record the arity of every applied name of `e`, extending `acc`;
/// `None` when a name is applied with two different arities.
pub open spec fn arities_of(e: Form, acc: Seq<(Seq<char>, nat)>) -> Option<Seq<(Seq<char>, nat)>>
    decreases e, 1int,
{
    match e {
        Form::Taut => Some(acc),
        Form::Contra => Some(acc),
        Form::Hole => Some(acc),
        Form::App { name, args } => {
            let acc2 = match ar_lookup(acc, name) {
                Some(a) => if a == args.len() {
                    Some(acc)
                } else {
                    None
                },
                None => Some(acc.push((name, args.len()))),
            };
            match acc2 {
                Some(acc2) => arities_args(args, acc2),
                None => None,
            }
        },
        Form::Not { inner } => arities_of(*inner, acc),
        Form::Bin { op, left, right } => match arities_of(*left, acc) {
            Some(acc2) => arities_of(*right, acc2),
            None => None,
        },
    }
}

/// Record arities across an argument list.
pub open spec fn arities_args(args: Seq<Form>, acc: Seq<(Seq<char>, nat)>) -> Option<
    Seq<(Seq<char>, nat)>,
>
    decreases args, 0int,
{
    if args.len() == 0 {
        Some(acc)
    } else {
        match arities_of(args[0], acc) {
            Some(acc2) => arities_args(args.drop_first(), acc2),
            None => None,
        }
    }
}

/// The arity record of a clause: both sides walked left to right.
pub open spec fn clause_arities(l: Form, r: Form) -> Option<Seq<(Seq<char>, nat)>> {
    match arities_of(l, Seq::empty()) {
        Some(a) => arities_of(r, a),
        None => None,
    }
}

/// The total number of table slots of an arity record.
pub open spec fn total_slots(ar: Seq<(Seq<char>, nat)>) -> nat
    decreases ar.len(),
{
    if ar.len() == 0 {
        0nat
    } else {
        pow2(ar[0].1) + total_slots(ar.drop_first())
    }
}

/// The assignment encoded by the number `x`: the first name's table
/// takes the lowest bits, and so on.
pub open spec fn env_of(ar: Seq<(Seq<char>, nat)>, x: nat) -> Seq<(Seq<char>, Seq<bool>)>
    decreases ar.len(),
{
    if ar.len() == 0 {
        Seq::empty()
    } else {
        let w = pow2(ar[0].1);
        seq![(ar[0].0, table_of(x % pow2(w), w))] + env_of(ar.drop_first(), x / pow2(w))
    }
}

/// Every metavariable arity of the record is small enough to
/// enumerate.
pub open spec fn arities_small(ar: Seq<(Seq<char>, nat)>) -> bool {
    forall|i: int| 0 <= i < ar.len() ==> (#[trigger] ar[i]).1 <= 5
}

/// Every application in the formula has few enough arguments to index
/// a table without overflow.
pub open spec fn args_small(e: Form) -> bool
    decreases e, 1int,
{
    match e {
        Form::App { name, args } => args.len() <= 16 && args_all_small(args),
        Form::Not { inner } => args_small(*inner),
        Form::Bin { op, left, right } => args_small(*left) && args_small(*right),
        _ => true,
    }
}

/// Every application in the argument list is small.
pub open spec fn args_all_small(args: Seq<Form>) -> bool
    decreases args, 0int,
{
    if args.len() == 0 {
        true
    } else {
        args_small(args[0]) && args_all_small(args.drop_first())
    }
}

/// The sides evaluate identically under the first `n` encoded
/// assignments.
pub open spec fn rows_agree(l: Form, r: Form, ar: Seq<(Seq<char>, nat)>, n: nat) -> bool {
    forall|x: nat| x < n ==> #[trigger] eval(l, env_of(ar, x)) == eval(r, env_of(ar, x))
}

/// The oracle's verdict on a clause: arity inference succeeds, the
/// table space is small enough to enumerate, and both sides evaluate
/// identically under every assignment of the space.
pub open spec fn clause_oracle_ok(l: Form, r: Form) -> bool {
    &&& args_small(l)
    &&& args_small(r)
    &&& clause_arities(l, r) matches Some(ar) && arities_small(ar) && total_slots(ar) <= 16
        && rows_agree(l, r, ar, pow2(total_slots(ar)))
}

/// The oracle's verdict on a rule: every clause passes.
pub open spec fn rule_oracle_ok(reds: Seq<(Form, Form)>) -> bool {
    forall|i: int| 0 <= i < reds.len() ==> clause_oracle_ok((#[trigger] reds[i]).0, reds[i].1)
}


/// The arity record denoted by an executable record.
pub open spec fn ar_view(ps: Seq<(String, usize)>) -> Seq<(Seq<char>, nat)> {
    Seq::new(
        ps.len(),
        |i: int|
            if 0 <= i < ps.len() {
                (ps[i].0@, ps[i].1 as nat)
            } else {
                (Seq::<char>::empty(), 0nat)
            },
    )
}

/// The assignment denoted by an executable assignment.
pub open spec fn env_view(ps: Seq<(String, Vec<bool>)>) -> Seq<(Seq<char>, Seq<bool>)> {
    Seq::new(
        ps.len(),
        |i: int|
            if 0 <= i < ps.len() {
                (ps[i].0@, ps[i].1@)
            } else {
                (Seq::<char>::empty(), Seq::<bool>::empty())
            },
    )
}

proof fn lemma_ar_found(ar: Seq<(Seq<char>, nat)>, k: int)
    requires
        0 <= k < ar.len(),
        forall|m: int| 0 <= m < k ==> (#[trigger] ar[m]).0 != ar[k].0,
    ensures
        ar_lookup(ar, ar[k].0) == Some(ar[k].1),
    decreases k,
{
    if k > 0 {
        assert(ar.drop_first()[k - 1] == ar[k]);
        assert(forall|m: int| 0 <= m < k - 1 ==> (#[trigger] ar.drop_first()[m]) == ar[m + 1]);
        lemma_ar_found(ar.drop_first(), k - 1);
    }
}

proof fn lemma_ar_missing(ar: Seq<(Seq<char>, nat)>, name: Seq<char>)
    requires
        forall|m: int| 0 <= m < ar.len() ==> (#[trigger] ar[m]).0 != name,
    ensures
        ar_lookup(ar, name) is None,
    decreases ar.len(),
{
    if ar.len() > 0 {
        assert(forall|m: int|
            0 <= m < ar.len() - 1 ==> (#[trigger] ar.drop_first()[m]) == ar[m + 1]);
        lemma_ar_missing(ar.drop_first(), name);
    }
}

proof fn lemma_env_found(env: Seq<(Seq<char>, Seq<bool>)>, k: int)
    requires
        0 <= k < env.len(),
        forall|m: int| 0 <= m < k ==> (#[trigger] env[m]).0 != env[k].0,
    ensures
        env_lookup(env, env[k].0) == Some(env[k].1),
    decreases k,
{
    if k > 0 {
        assert(env.drop_first()[k - 1] == env[k]);
        assert(forall|m: int| 0 <= m < k - 1 ==> (#[trigger] env.drop_first()[m]) == env[m + 1]);
        lemma_env_found(env.drop_first(), k - 1);
    }
}

proof fn lemma_env_missing(env: Seq<(Seq<char>, Seq<bool>)>, name: Seq<char>)
    requires
        forall|m: int| 0 <= m < env.len() ==> (#[trigger] env[m]).0 != name,
    ensures
        env_lookup(env, name) is None,
    decreases env.len(),
{
    if env.len() > 0 {
        assert(forall|m: int|
            0 <= m < env.len() - 1 ==> (#[trigger] env.drop_first()[m]) == env[m + 1]);
        lemma_env_missing(env.drop_first(), name);
    }
}

/// Powers of two never shrink as the exponent grows.
proof fn lemma_pow2_increases(a: nat, b: nat)
    requires
        a <= b,
    ensures
        pow2(a) <= pow2(b),
        pow2(a) >= 1,
    decreases b,
{
    if a < b {
        lemma_pow2_increases(a, (b - 1) as nat);
    } else if a > 0 {
        lemma_pow2_increases((a - 1) as nat, (b - 1) as nat);
    }
}

/// The table space of thirty-two slots.
proof fn lemma_pow2_32()
    ensures
        pow2(32) == 0x1_0000_0000,
{
    reveal_with_fuel(pow2, 34);
}

/// Small powers of two fit a machine word.
proof fn lemma_pow2_bound(n: nat)
    ensures
        n <= 32 ==> pow2(n) <= 0x1_0000_0000,
        pow2(n) >= 1,
{
    lemma_pow2_increases(0, n);
    if n <= 32 {
        lemma_pow2_increases(n, 32);
        lemma_pow2_32();
    }
}

/// Powers of two, executably.
fn pow2_u64(n: u64) -> (r: u64)
    requires
        n <= 32,
    ensures
        r == pow2(n as nat),
        r >= 1,
    decreases n,
{
    if n == 0 {
        1
    } else {
        proof {
            lemma_pow2_bound((n - 1) as nat);
        }
        2 * pow2_u64(n - 1)
    }
}

/// Record the arity of every applied name (executable form of
/// `arities_of`).
fn infer_arities(e: &Expr, acc: Vec<(String, usize)>) -> (r: Option<Vec<(String, usize)>>)
    ensures
        match r {
            Some(out) => arities_of(e@, ar_view(acc@)) == Some(ar_view(out@)),
            None => arities_of(e@, ar_view(acc@)) is None,
        },
    decreases *e, 1int,
{
    match e {
        Expr::Taut => Some(acc),
        Expr::Contra => Some(acc),
        Expr::Hole => Some(acc),
        Expr::App { name, args } => {
            let mut k: usize = 0;
            let mut hit: bool = false;
            let mut prior: usize = 0;
            #[verifier::loop_isolation(false)]
            while !hit && k < acc.len()
                invariant
                    0 <= k <= acc@.len(),
                    forall|m: int| 0 <= m < k ==> (#[trigger] acc@[m]).0@ != name@,
                    hit ==> 0 <= k < acc@.len() && acc@[k as int].0@ == name@ && prior == acc@[k as int].1,
                decreases acc@.len() - k + (if hit { 0int } else { 1int }),
            {
                if acc[k].0.eq(name) {
                    prior = acc[k].1;
                    hit = true;
                } else {
                    k += 1;
                }
            }
            let acc2 = if hit {
                proof {
                    let av = ar_view(acc@);
                    assert(av[k as int].0 == name@);
                    let avk = av[k as int];
                    assert forall|m: int| 0 <= m < k implies (#[trigger] av[m]).0 != avk.0 by {
                        assert(av[m].0 == acc@[m].0@);
                    }
                    lemma_ar_found(av, k as int);
                }
                if prior != args.len() {
                    return None;
                }
                acc
            } else {
                proof {
                    let av = ar_view(acc@);
                    assert forall|m: int| 0 <= m < av.len() implies (#[trigger] av[m]).0
                        != name@ by {
                        assert(av[m].0 == acc@[m].0@);
                    }
                    lemma_ar_missing(av, name@);
                }
                let ghost acc0 = acc@;
                let mut acc2 = acc;
                acc2.push((name.clone(), args.len()));
                proof {
                    assert(ar_view(acc2@) =~= ar_view(acc0).push((name@, args.len() as nat)));
                }
                acc2
            };
            proof {
                assert(e@ is App);
                assert(e@->App_args.len() == args.len());
            }
            let ghost acc2v = ar_view(acc2@);
            proof {
                assert(e@->App_args.subrange(0, args.len() as int) =~= e@->App_args);
            }
            let mut cur = acc2;
            let mut i: usize = 0;
            #[verifier::loop_isolation(false)]
            while i < args.len()
                invariant
                    0 <= i <= args.len(),
                    arities_args(e@->App_args, acc2v) == arities_args(
                        e@->App_args.subrange(i as int, args.len() as int),
                        ar_view(cur@),
                    ),
                decreases args.len() - i,
            {
                proof {
                    assert(decreases_to!(*args => args[i as int]));
                    assert(decreases_to!(*e => *args));
                    assert(e@->App_args[i as int] == args[i as int]@);
                    assert(e@->App_args.subrange(i as int, args.len() as int).drop_first()
                        =~= e@->App_args.subrange(i + 1, args.len() as int));
                }
                match infer_arities(&args[i], cur) {
                    Some(next) => {
                        cur = next;
                    },
                    None => {
                        return None;
                    },
                }
                i += 1;
            }
            proof {
                assert(e@->App_args.subrange(args.len() as int, args.len() as int)
                    =~= Seq::<Form>::empty());
            }
            Some(cur)
        },
        Expr::Not { inner } => infer_arities(inner, acc),
        Expr::Bin { op, left, right } => match infer_arities(left, acc) {
            Some(a2) => infer_arities(right, a2),
            None => None,
        },
    }
}

/// Every application has few enough arguments (executable form of
/// `args_small`).
fn args_small_exec(e: &Expr) -> (r: bool)
    ensures
        r == args_small(e@),
    decreases *e, 1int,
{
    match e {
        Expr::Taut => true,
        Expr::Contra => true,
        Expr::Hole => true,
        Expr::App { name, args } => {
            if args.len() > 16 {
                proof {
                    assert(e@ is App && e@->App_args.len() == args.len());
                }
                return false;
            }
            proof {
                assert(e@->App_args.subrange(0, args.len() as int) =~= e@->App_args);
            }
            let mut i: usize = 0;
            #[verifier::loop_isolation(false)]
            while i < args.len()
                invariant
                    0 <= i <= args.len(),
                    args_all_small(e@->App_args) == args_all_small(
                        e@->App_args.subrange(i as int, args.len() as int),
                    ),
                decreases args.len() - i,
            {
                proof {
                    assert(decreases_to!(*args => args[i as int]));
                    assert(decreases_to!(*e => *args));
                    assert(e@->App_args[i as int] == args[i as int]@);
                    assert(e@->App_args.subrange(i as int, args.len() as int).drop_first()
                        =~= e@->App_args.subrange(i + 1, args.len() as int));
                }
                if !args_small_exec(&args[i]) {
                    return false;
                }
                i += 1;
            }
            proof {
                assert(e@->App_args.subrange(args.len() as int, args.len() as int)
                    =~= Seq::<Form>::empty());
            }
            true
        },
        Expr::Not { inner } => args_small_exec(inner),
        Expr::Bin { op, left, right } => args_small_exec(left) && args_small_exec(right),
    }
}

/// Evaluate a pattern side under an assignment (executable form of
/// `eval`).
fn eval_exec(e: &Expr, env: &Vec<(String, Vec<bool>)>) -> (r: Option<bool>)
    requires
        args_small(e@),
    ensures
        r == eval(e@, env_view(env@)),
    decreases *e, 1int,
{
    match e {
        Expr::Taut => Some(true),
        Expr::Contra => Some(false),
        Expr::Hole => None,
        Expr::App { name, args } => {
            proof {
                assert(e@ is App);
                assert(e@->App_args.len() == args@.len());
                assert forall|m: int| 0 <= m < args@.len() implies #[trigger] e@->App_args[m]
                    == args@[m]@ by {}
                assert(args_all_small(e@->App_args));
                assert(e@->App_args.subrange(0, args@.len() as int) =~= e@->App_args);
            }
            let bs = match eval_args_exec(args, 0, env, Ghost(e@)) {
                Some(bs) => bs,
                None => {
                    return None;
                },
            };
            // look the name's table up
            let mut k: usize = 0;
            #[verifier::loop_isolation(false)]
            while k < env.len()
                invariant
                    0 <= k <= env@.len(),
                    forall|m: int| 0 <= m < k ==> (#[trigger] env@[m]).0@ != name@,
                decreases env@.len() - k,
            {
                if env[k].0.eq(name) {
                    proof {
                        let ev = env_view(env@);
                        assert(ev[k as int].0 == name@);
                        let evk = ev[k as int];
                        assert forall|m: int| 0 <= m < k implies (#[trigger] ev[m]).0 != evk.0 by {
                            assert(ev[m].0 == env@[m].0@);
                        }
                        lemma_env_found(ev, k as int);
                    }
                    let table = &env[k].1;
                    // the slot picked by the argument values
                    let mut slot: u64 = 0;
                    let mut i: usize = bs.len();
                    proof {
                        assert(bs@.subrange(bs@.len() as int, bs@.len() as int)
                            =~= Seq::<bool>::empty());
                    }
                    #[verifier::loop_isolation(false)]
                    while i > 0
                        invariant
                            0 <= i <= bs@.len(),
                            bs@.len() <= 16,
                            slot == slot_of(bs@.subrange(i as int, bs@.len() as int)),
                            slot < pow2((bs@.len() - i) as nat),
                        decreases i,
                    {
                        i = i - 1;
                        proof {
                            lemma_pow2_bound((bs@.len() - i) as nat);
                            assert(bs@.subrange(i as int, bs@.len() as int).drop_first()
                                =~= bs@.subrange(i + 1, bs@.len() as int));
                            assert(bs@.subrange(i as int, bs@.len() as int)[0] == bs@[i as int]);
                        }
                        slot = 2 * slot + (if bs[i] {
                            1
                        } else {
                            0
                        });
                    }
                    proof {
                        assert(bs@.subrange(0, bs@.len() as int) =~= bs@);
                        lemma_pow2_bound(bs@.len() as nat);
                    }
                    if (slot as usize) < table.len() {
                        return Some(table[slot as usize]);
                    } else {
                        return None;
                    }
                }
                k += 1;
            }
            proof {
                let ev = env_view(env@);
                assert forall|m: int| 0 <= m < ev.len() implies (#[trigger] ev[m]).0 != name@ by {
                    assert(ev[m].0 == env@[m].0@);
                }
                lemma_env_missing(ev, name@);
            }
            None
        },
        Expr::Not { inner } => match eval_exec(inner, env) {
            Some(b) => Some(!b),
            None => None,
        },
        Expr::Bin { op, left, right } => match (eval_exec(left, env), eval_exec(right, env)) {
            (Some(l), Some(r)) => Some(
                match op {
                    crate::expr::BinKind::And => l && r,
                    crate::expr::BinKind::Or => l || r,
                    crate::expr::BinKind::Implies => !l || r,
                    crate::expr::BinKind::Iff => l == r,
                },
            ),
            _ => None,
        },
    }
}

/// Evaluate the argument tail starting at `i` (executable form of
/// `eval_args`).
fn eval_args_exec(args: &Vec<Expr>, i: usize, env: &Vec<(String, Vec<bool>)>, parent: Ghost<Form>)
    -> (r: Option<Vec<bool>>)
    requires
        i <= args.len(),
        parent@ is App,
        parent@->App_args.len() == args@.len(),
        forall|m: int| 0 <= m < args@.len() ==> #[trigger] parent@->App_args[m] == args@[m]@,
        args_all_small(parent@->App_args),
        args@.len() <= 16,
    ensures
        match r {
            Some(bs) => eval_args(
                parent@->App_args.subrange(i as int, args@.len() as int),
                env_view(env@),
            ) == Some(bs@) && bs@.len() == args@.len() - i,
            None => eval_args(
                parent@->App_args.subrange(i as int, args@.len() as int),
                env_view(env@),
            ) is None,
        },
    decreases *args, args.len() - i,
{
    if i == args.len() {
        proof {
            assert(parent@->App_args.subrange(i as int, args@.len() as int)
                =~= Seq::<Form>::empty());
        }
        Some(Vec::new())
    } else {
        proof {
            assert(decreases_to!(*args => args[i as int]));
            assert(parent@->App_args.subrange(i as int, args@.len() as int)[0]
                == args@[i as int]@);
            assert(parent@->App_args.subrange(i as int, args@.len() as int).drop_first()
                =~= parent@->App_args.subrange(i + 1, args@.len() as int));
            lemma_args_all_small_at(parent@->App_args, i as int);
        }
        let b = match eval_exec(&args[i], env) {
            Some(b) => b,
            None => {
                return None;
            },
        };
        match eval_args_exec(args, i + 1, env, parent) {
            Some(mut rest) => {
                rest.insert(0, b);
                proof {
                    assert(rest@ =~= seq![b] + rest@.drop_first());
                }
                Some(rest)
            },
            None => None,
        }
    }
}

/// Each member of a small argument list is small.
proof fn lemma_args_all_small_at(args: Seq<Form>, i: int)
    requires
        args_all_small(args),
        0 <= i < args.len(),
    ensures
        args_small(args[i]),
    decreases i,
{
    if i > 0 {
        lemma_args_all_small_at(args.drop_first(), i - 1);
    }
}


/// Build the assignment encoded by `x` for the arity record tail
/// starting at `i` (executable form of `env_of`).
fn build_env(ar: &Vec<(String, usize)>, i: usize, x: u64) -> (r: Vec<(String, Vec<bool>)>)
    requires
        i <= ar@.len(),
        arities_small(ar_view(ar@)),
    ensures
        env_view(r@) == env_of(ar_view(ar@).subrange(i as int, ar@.len() as int), x as nat),
    decreases ar@.len() - i,
{
    let ghost av = ar_view(ar@);
    if i == ar.len() {
        proof {
            assert(av.subrange(i as int, ar@.len() as int) =~= Seq::<(Seq<char>, nat)>::empty());
            assert(env_view(Seq::<(String, Vec<bool>)>::empty()) =~= Seq::<(
                Seq<char>,
                Seq<bool>,
            )>::empty());
        }
        Vec::new()
    } else {
        let arity = ar[i].1;
        proof {
            assert(av[i as int].1 == arity as nat);
            assert(av[i as int].1 <= 5);
            lemma_pow2_bound(arity as nat);
        }
        let w = pow2_u64(arity as u64);
        proof {
            assert(w <= 32) by {
                lemma_pow2_increases(arity as nat, 5);
                reveal_with_fuel(pow2, 7);
            }
        }
        let chunk = pow2_u64(w);
        let v = x % chunk;
        let mut table: Vec<bool> = Vec::new();
        let mut b: usize = 0;
        #[verifier::loop_isolation(false)]
        while b < (w as usize)
            invariant
                0 <= b <= w,
                w == pow2(arity as nat),
                w <= 32,
                table@.len() == b,
                forall|m: int| 0 <= m < b ==> #[trigger] table@[m] == (v as nat / pow2(m as nat) % 2
                    == 1),
            decreases w - b,
        {
            proof {
                lemma_pow2_bound(b as nat);
            }
            let p = pow2_u64(b as u64);
            table.push((v / p) % 2 == 1);
            b += 1;
        }
        let rest = build_env(ar, i + 1, x / chunk);
        let ghost restv = env_view(rest@);
        let mut out = rest;
        out.insert(0, (ar[i].0.clone(), table));
        proof {
            let tail = av.subrange(i as int, ar@.len() as int);
            assert(tail[0] == av[i as int]);
            assert(tail.drop_first() =~= av.subrange(i + 1, ar@.len() as int));
            assert(table@ =~= table_of((x % chunk) as nat, pow2(arity as nat)));
            assert(env_view(out@) =~= seq![
                (av[i as int].0, table_of((x as nat) % pow2(pow2(av[i as int].1)), pow2(
                    av[i as int].1,
                ))),
            ] + restv);
        }
        out
    }
}

/// Whether a clause can be enumerated: no arity conflict, every arity
/// and application small, and a table space that fits the oracle.
pub open spec fn clause_enumerable(l: Form, r: Form) -> bool {
    &&& args_small(l)
    &&& args_small(r)
    &&& clause_arities(l, r) matches Some(ar) && arities_small(ar) && total_slots(ar) <= 16
}

/// Run the truth-table check on one clause. `None` when the clause
/// cannot be enumerated (an arity conflict, or a table space too large
/// for the oracle); otherwise whether both sides evaluate identically
/// under every assignment.
pub fn check_clause(lhs: &Expr, rhs: &Expr) -> (r: Option<bool>)
    ensures
        r is Some <==> clause_enumerable(lhs@, rhs@),
        r matches Some(b) ==> {
            let ar = clause_arities(lhs@, rhs@)->Some_0;
            b == rows_agree(lhs@, rhs@, ar, pow2(total_slots(ar)))
        },
        (r == Some(true)) == clause_oracle_ok(lhs@, rhs@),
    {
    if !args_small_exec(lhs) {
        return None;
    }
    if !args_small_exec(rhs) {
        return None;
    }
    let acc = match infer_arities(lhs, Vec::new()) {
        Some(a) => a,
        None => {
            proof {
                assert(ar_view(Seq::<(String, usize)>::empty()) =~= Seq::<(
                    Seq<char>,
                    nat,
                )>::empty());
            }
            return None;
        },
    };
    proof {
        assert(ar_view(Seq::<(String, usize)>::empty()) =~= Seq::<(Seq<char>, nat)>::empty());
    }
    let ar = match infer_arities(rhs, acc) {
        Some(a) => a,
        None => {
            return None;
        },
    };
    let ghost arv = ar_view(ar@);
    proof {
        assert(clause_arities(lhs@, rhs@) == Some(arv));
    }
    // every arity small, and the table space bounded
    let mut total: u64 = 0;
    let mut i: usize = 0;
    #[verifier::loop_isolation(false)]
    while i < ar.len()
        invariant
            0 <= i <= ar@.len(),
            forall|m: int| 0 <= m < i ==> (#[trigger] arv[m]).1 <= 5,
            total == total_slots(arv.subrange(0, i as int)),
            total <= 16,
        decreases ar@.len() - i,
    {
        if ar[i].1 > 5 {
            proof {
                assert(arv[i as int].1 > 5);
            }
            return None;
        }
        proof {
            lemma_pow2_bound(ar@[i as int].1 as nat);
        }
        let slots = pow2_u64(ar[i].1 as u64);
        if total + slots > 16 {
            proof {
                assert(arv.subrange(0, i + 1).drop_last() =~= arv.subrange(0, i as int));
                assert(arv.subrange(0, i + 1).last() == arv[i as int]);
                lemma_total_slots_snoc(arv.subrange(0, i + 1));
                lemma_total_slots_grows(arv, i + 1);
                assert(total_slots(arv) > 16);
            }
            return None;
        }
        total = total + slots;
        proof {
            assert(arv.subrange(0, i + 1).drop_last() =~= arv.subrange(0, i as int));
            assert(arv.subrange(0, i + 1).last() == arv[i as int]);
            lemma_total_slots_snoc(arv.subrange(0, i + 1));
        }
        i += 1;
    }
    proof {
        assert(arv.subrange(0, ar@.len() as int) =~= arv);
        assert(arities_small(arv));
        assert(total == total_slots(arv));
        lemma_pow2_bound(total as nat);
    }
    // enumerate every assignment of the table space
    let n = pow2_u64(total);
    let mut x: u64 = 0;
    #[verifier::loop_isolation(false)]
    while x < n
        invariant
            0 <= x <= n,
            n == pow2(total_slots(arv)),
            forall|y: nat|
                y < x ==> #[trigger] eval(lhs@, env_of(arv, y)) == eval(rhs@, env_of(arv, y)),
        decreases n - x,
    {
        let env = build_env(&ar, 0, x);
        proof {
            assert(arv.subrange(0, ar@.len() as int) =~= arv);
        }
        let el = eval_exec(lhs, &env);
        let er = eval_exec(rhs, &env);
        let same_row = match (el, er) {
            (Some(a), Some(b)) => a == b,
            (None, None) => true,
            _ => false,
        };
        if !same_row {
            proof {
                assert(eval(lhs@, env_of(arv, x as nat)) != eval(rhs@, env_of(arv, x as nat)));
                assert(!rows_agree(lhs@, rhs@, arv, pow2(total_slots(arv))));
            }
            return Some(false);
        }
        x += 1;
    }
    proof {
        assert forall|y: nat| y < pow2(total_slots(arv)) implies #[trigger] eval(
            lhs@,
            env_of(arv, y),
        ) == eval(rhs@, env_of(arv, y)) by {}
    }
    Some(true)
}

/// The slot total over a prefix never exceeds the whole.
proof fn lemma_total_slots_grows(ar: Seq<(Seq<char>, nat)>, i: int)
    requires
        0 <= i <= ar.len(),
    ensures
        total_slots(ar.subrange(0, i)) <= total_slots(ar),
    decreases ar.len() - i,
{
    if i < ar.len() {
        assert(ar.subrange(0, i + 1).drop_last() =~= ar.subrange(0, i));
        assert(ar.subrange(0, i + 1).last() == ar[i]);
        lemma_total_slots_snoc(ar.subrange(0, i + 1));
        lemma_pow2_increases(0, ar[i].1);
        lemma_total_slots_grows(ar, i + 1);
    } else {
        assert(ar.subrange(0, i) =~= ar);
    }
}

/// The slot total of a record ending in one more entry.
proof fn lemma_total_slots_snoc(ar: Seq<(Seq<char>, nat)>)
    requires
        ar.len() > 0,
    ensures
        total_slots(ar) == total_slots(ar.drop_last()) + pow2(ar.last().1),
    decreases ar.len(),
{
    if ar.len() == 1 {
        assert(ar.drop_last() =~= Seq::<(Seq<char>, nat)>::empty());
        assert(ar.drop_first() =~= Seq::<(Seq<char>, nat)>::empty());
        assert(total_slots(ar) == pow2(ar[0].1) + total_slots(ar.drop_first()));
        assert(ar.last() == ar[0]);
    } else {
        assert(ar.drop_first().drop_last() =~= ar.drop_last().drop_first());
        assert(ar.drop_last()[0] == ar[0]);
        assert(ar.drop_first().last() == ar.last());
        lemma_total_slots_snoc(ar.drop_first());
        assert(total_slots(ar) == pow2(ar[0].1) + total_slots(ar.drop_first()));
        assert(total_slots(ar.drop_first()) == total_slots(ar.drop_first().drop_last()) + pow2(
            ar.last().1,
        ));
        assert(total_slots(ar.drop_last()) == pow2(ar.drop_last()[0].1) + total_slots(
            ar.drop_last().drop_first(),
        ));
        assert(total_slots(ar) == total_slots(ar.drop_last()) + pow2(ar.last().1));
    }
}

/// Run the truth-table check on a whole rule: every clause must be
/// enumerable and pass.
pub fn check_rule(rule: &RewriteRule) -> (r: bool)
    ensures
        r == rule_oracle_ok(rule@),
{
    let mut i: usize = 0;
    #[verifier::loop_isolation(false)]
    while i < rule.reductions.len()
        invariant
            0 <= i <= rule.reductions@.len(),
            forall|m: int| 0 <= m < i ==> clause_oracle_ok((#[trigger] rule@[m]).0, rule@[m].1),
        decreases rule.reductions@.len() - i,
    {
        let ok = match check_clause(&rule.reductions[i].0, &rule.reductions[i].1) {
            Some(b) => b,
            None => false,
        };
        proof {
            assert(rule@[i as int] == (rule.reductions@[i as int].0@, rule.reductions@[i as int].1@));
        }
        if !ok {
            return false;
        }
        i += 1;
    }
    true
}


/// The number encoding an assignment: each table contributes its slot
/// value, the first name in the lowest bits.
pub open spec fn index_of_env(env: Seq<(Seq<char>, Seq<bool>)>) -> nat
    decreases env.len(),
{
    if env.len() == 0 {
        0nat
    } else {
        slot_of(env[0].1) + pow2(env[0].1.len()) * index_of_env(env.drop_first())
    }
}

/// A slot value never reaches the table space of its width.
proof fn lemma_slot_bound(bs: Seq<bool>)
    ensures
        slot_of(bs) < pow2(bs.len()),
    decreases bs.len(),
{
    if bs.len() > 0 {
        lemma_slot_bound(bs.drop_first());
    }
}

/// Powers of two turn sums into products.
proof fn lemma_pow2_adds(a: nat, b: nat)
    ensures
        pow2(a + b) == pow2(a) * pow2(b),
    decreases a,
{
    if a > 0 {
        lemma_pow2_adds((a - 1) as nat, b);
        assert(((a + b - 1) as nat) == ((a - 1) as nat) + b);
        assert(pow2(a + b) == 2 * pow2((a + b - 1) as nat));
        assert(2 * (pow2((a - 1) as nat) * pow2(b)) == (2 * pow2((a - 1) as nat)) * pow2(b)) by (
        nonlinear_arith);
        assert(pow2(a) == 2 * pow2((a - 1) as nat));
        assert(pow2(a + b) == 2 * (pow2((a - 1) as nat) * pow2(b)));
        assert(pow2(a + b) == pow2(a) * pow2(b));
    } else {
        assert(pow2(a) == 1);
        assert(pow2(a + b) == 1 * pow2(b)) by (nonlinear_arith)
            requires
                pow2(a + b) == pow2(b),
        ;
    }
}

/// Decoding the slot value of a table gives the table back.
proof fn lemma_table_roundtrip(t: Seq<bool>)
    ensures
        table_of(slot_of(t), t.len()) == t,
    decreases t.len(),
{
    if t.len() == 0 {
        assert(table_of(slot_of(t), t.len()) =~= t);
    } else {
        let rest = t.drop_first();
        lemma_table_roundtrip(rest);
        let b0: nat = if t[0] {
            1nat
        } else {
            0nat
        };
        let v = slot_of(t);
        assert(v == b0 + 2 * slot_of(rest));
        vstd::arithmetic::div_mod::lemma_fundamental_div_mod_converse(
            v as int,
            2,
            slot_of(rest) as int,
            b0 as int,
        );
        assert(v % 2 == b0);
        assert(v / 2 == slot_of(rest));
        assert forall|i: int| 0 <= i < t.len() implies #[trigger] table_of(v, t.len())[i]
            == t[i] by {
            if i == 0 {
                assert(pow2(0) == 1);
                assert(v / 1 == v) by (nonlinear_arith);
                assert(v / pow2(0) == v);
            } else {
                assert(v / pow2(i as nat) == slot_of(rest) / pow2((i - 1) as nat)) by {
                    assert(pow2(i as nat) == 2 * pow2((i - 1) as nat));
                    lemma_pow2_increases(0, (i - 1) as nat);
                    vstd::arithmetic::div_mod::lemma_div_denominator(
                        v as int,
                        2,
                        pow2((i - 1) as nat) as int,
                    );
                }
                assert(table_of(slot_of(rest), rest.len())[i - 1] == rest[i - 1]);
                assert(rest[i - 1] == t[i]);
            }
        }
        assert(table_of(v, t.len()) =~= t);
    }
}

/// Completeness of the enumeration: every assignment that matches the
/// arity record — right names in order, each table sized `2^arity` —
/// is the decoding of exactly the index that encodes it, and that
/// index lies inside the enumerated space. With `rows_agree` this
/// extends the oracle's verdict to every such assignment.
pub proof fn lemma_assignment_covered(ar: Seq<(Seq<char>, nat)>, env: Seq<(Seq<char>, Seq<bool>)>)
    requires
        env.len() == ar.len(),
        forall|i: int|
            0 <= i < ar.len() ==> (#[trigger] env[i]).0 == ar[i].0 && env[i].1.len() == pow2(
                ar[i].1,
            ),
    ensures
        index_of_env(env) < pow2(total_slots(ar)),
        env_of(ar, index_of_env(env)) == env,
    decreases ar.len(),
{
    if ar.len() == 0 {
        assert(env_of(ar, index_of_env(env)) =~= env);
        lemma_pow2_increases(0, total_slots(ar));
    } else {
        let rest_ar = ar.drop_first();
        let rest_env = env.drop_first();
        assert forall|i: int|
            0 <= i < rest_ar.len() implies (#[trigger] rest_env[i]).0 == rest_ar[i].0
            && rest_env[i].1.len() == pow2(rest_ar[i].1) by {
            assert(rest_env[i] == env[i + 1]);
            assert(rest_ar[i] == ar[i + 1]);
        }
        lemma_assignment_covered(rest_ar, rest_env);
        let w = pow2(ar[0].1);
        let t0 = env[0].1;
        let v0 = slot_of(t0);
        let k = index_of_env(rest_env);
        let x = index_of_env(env);
        assert(t0.len() == w);
        lemma_slot_bound(t0);
        assert(v0 < pow2(w));
        assert(x == v0 + pow2(w) * k);
        // the index stays inside the enumerated space
        assert(total_slots(ar) == w + total_slots(rest_ar));
        lemma_pow2_adds(w, total_slots(rest_ar));
        assert(x < pow2(w) * pow2(total_slots(rest_ar))) by {
            assert(k + 1 <= pow2(total_slots(rest_ar)));
            assert(pow2(w) * (k + 1) <= pow2(w) * pow2(total_slots(rest_ar))) by (
            nonlinear_arith)
                requires
                    k + 1 <= pow2(total_slots(rest_ar)),
                    pow2(w) >= 0,
            ;
            assert(pow2(w) * (k + 1) == pow2(w) * k + pow2(w)) by (nonlinear_arith);
        }
        // the low bits decode to the first table, the high bits to the
        // rest
        lemma_pow2_increases(0, w);
        assert(k * pow2(w) + v0 == v0 + pow2(w) * k) by (nonlinear_arith);
        vstd::arithmetic::div_mod::lemma_fundamental_div_mod_converse(
            x as int,
            pow2(w) as int,
            k as int,
            v0 as int,
        );
        assert(x % pow2(w) == v0);
        assert(x / pow2(w) == k);
        lemma_table_roundtrip(t0);
        assert(table_of(x % pow2(w), w) == t0);
        assert(env_of(ar, x) =~= env);
    }
}


/// An assignment matches an arity record: the same names in the same
/// order, each table sized `2^arity`.
pub open spec fn env_matches(ar: Seq<(Seq<char>, nat)>, env: Seq<(Seq<char>, Seq<bool>)>) -> bool {
    &&& env.len() == ar.len()
    &&& forall|i: int|
        0 <= i < ar.len() ==> (#[trigger] env[i]).0 == ar[i].0 && env[i].1.len() == pow2(ar[i].1)
}

/// Oracle soundness, in general: a clause the oracle accepts evaluates
/// identically under every assignment that matches its inferred
/// arities — not only the enumerated ones. Every such assignment is
/// the decoding of its own index, which the oracle's verdict covers.
pub proof fn lemma_oracle_ok_all_assignments(
    l: Form,
    r: Form,
    env: Seq<(Seq<char>, Seq<bool>)>,
)
    requires
        clause_oracle_ok(l, r),
        env_matches(clause_arities(l, r)->Some_0, env),
    ensures
        eval(l, env) == eval(r, env),
{
    let ar = clause_arities(l, r)->Some_0;
    lemma_assignment_covered(ar, env);
    let x = index_of_env(env);
    assert(eval(l, env_of(ar, x)) == eval(r, env_of(ar, x)));
}

/// Oracle soundness lifted to a rule: every clause of a rule the
/// oracle accepts is truth-functionally an equivalence over every
/// assignment matching its inferred arities.
pub proof fn lemma_rule_oracle_ok_all_assignments(
    reds: Seq<(Form, Form)>,
    i: int,
    env: Seq<(Seq<char>, Seq<bool>)>,
)
    requires
        rule_oracle_ok(reds),
        0 <= i < reds.len(),
        env_matches(clause_arities(reds[i].0, reds[i].1)->Some_0, env),
    ensures
        eval(reds[i].0, env) == eval(reds[i].1, env),
{
    lemma_oracle_ok_all_assignments(reds[i].0, reds[i].1, env);
}

} // verus!
