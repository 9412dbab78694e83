//! The proof document: an ordered, nested tree of premises,
//! justification lines and subproofs, addressed through stable opaque
//! references.
//!
//! Nodes live in slot arenas; a reference names a slot for the lifetime
//! of the tree, independent of position. Removing a node clears its slot
//! and never renumbers other slots, so references to unrelated lines
//! stay valid across structural edits; a cleared slot answers every
//! lookup with "not found".

use vstd::prelude::*;

use crate::catalog::RuleTable;
use crate::expr::Expr;
use crate::expr::Form;
use crate::rules::RuleId;
use crate::rules::rule_applies;

verus! {

/// Reference to a premise.
#[derive(Debug, Clone, Copy, PartialEq, Eq, Hash, Structural)]
pub struct PremRef {
    idx: usize,
}

/// Reference to a justification line.
#[derive(Debug, Clone, Copy, PartialEq, Eq, Hash, Structural)]
pub struct JustRef {
    idx: usize,
}

/// Reference to a subproof.
#[derive(Debug, Clone, Copy, PartialEq, Eq, Hash, Structural)]
pub struct SubRef {
    idx: usize,
}

/// Reference to a line: a premise or a justification.
#[derive(Debug, Clone, Copy, PartialEq, Eq, Hash, Structural)]
pub enum PjRef {
    Prem(PremRef),
    Just(JustRef),
}

/// One entry of a subproof's ordered line list: a justification or a
/// nested subproof.
#[derive(Debug, Clone, Copy, PartialEq, Eq, Hash, Structural)]
pub enum LineItem {
    Just(JustRef),
    Sub(SubRef),
}

/// A dependency citation target: a line or a closed subproof.
#[derive(Debug, Clone, Copy, PartialEq, Eq, Hash, Structural)]
pub enum DepRef {
    Line(PjRef),
    Sub(SubRef),
}

/// A justification: a conclusion expression, a cited rule, and the
/// cited line and subproof dependencies.
pub struct Justification {
    /// The concluded expression.
    pub expr: Expr,
    /// The cited rule.
    pub rule: RuleId,
    /// Cited lines (premises or earlier justifications).
    pub line_deps: Vec<PjRef>,
    /// Cited closed subproofs.
    pub sub_deps: Vec<SubRef>,
}

struct PremNode {
    expr: Expr,
    parent: SubRef,
}

struct JustNode {
    just: Justification,
    parent: SubRef,
}

struct SubNode {
    parent: Option<SubRef>,
    premises: Vec<PremRef>,
    lines: Vec<LineItem>,
}

/// The proof document.
pub struct ProofTree {
    prems: Vec<Option<PremNode>>,
    justs: Vec<Option<JustNode>>,
    subs: Vec<Option<SubNode>>,
}

impl ProofTree {
    /// The root subproof's reference.
    pub closed spec fn root() -> SubRef {
        SubRef { idx: 0 }
    }

    /// Whether `p` names a live premise.
    pub closed spec fn valid_prem(self, p: PremRef) -> bool {
        p.idx < self.prems@.len() && self.prems@[p.idx as int] is Some
    }

    /// The expression of a live premise.
    pub closed spec fn prem_expr(self, p: PremRef) -> Form {
        self.prems@[p.idx as int]->Some_0.expr@
    }

    /// The subproof a live premise belongs to.
    pub closed spec fn prem_parent(self, p: PremRef) -> SubRef {
        self.prems@[p.idx as int]->Some_0.parent
    }

    /// Whether `j` names a live justification line.
    pub closed spec fn valid_just(self, j: JustRef) -> bool {
        j.idx < self.justs@.len() && self.justs@[j.idx as int] is Some
    }

    /// The conclusion expression of a live justification.
    pub closed spec fn just_expr(self, j: JustRef) -> Form {
        self.justs@[j.idx as int]->Some_0.just.expr@
    }

    /// The cited rule of a live justification.
    pub closed spec fn just_rule(self, j: JustRef) -> RuleId {
        self.justs@[j.idx as int]->Some_0.just.rule
    }

    /// The cited line dependencies of a live justification.
    pub closed spec fn just_line_deps(self, j: JustRef) -> Seq<PjRef> {
        self.justs@[j.idx as int]->Some_0.just.line_deps@
    }

    /// The cited subproof dependencies of a live justification.
    pub closed spec fn just_sub_deps(self, j: JustRef) -> Seq<SubRef> {
        self.justs@[j.idx as int]->Some_0.just.sub_deps@
    }

    /// The subproof a live justification belongs to.
    pub closed spec fn just_parent(self, j: JustRef) -> SubRef {
        self.justs@[j.idx as int]->Some_0.parent
    }

    /// Whether `s` names a live subproof.
    pub closed spec fn valid_sub(self, s: SubRef) -> bool {
        s.idx < self.subs@.len() && self.subs@[s.idx as int] is Some
    }

    /// The parent of a live subproof; `None` for the root.
    pub closed spec fn sub_parent(self, s: SubRef) -> Option<SubRef> {
        self.subs@[s.idx as int]->Some_0.parent
    }

    /// The ordered premises of a live subproof.
    pub closed spec fn sub_premises(self, s: SubRef) -> Seq<PremRef> {
        self.subs@[s.idx as int]->Some_0.premises@
    }

    /// The ordered line list of a live subproof.
    pub closed spec fn sub_lines(self, s: SubRef) -> Seq<LineItem> {
        self.subs@[s.idx as int]->Some_0.lines@
    }

    /// Well-formedness of the document:
    /// - the root subproof exists, is live, and has no parent;
    /// - every other live subproof has a live parent of smaller index
    ///   that lists it;
    /// - every live subproof has at least one premise;
    /// - listed premises and lines are live and point back to the
    ///   listing subproof; a nested subproof's index exceeds its
    ///   parent's;
    /// - every live premise and justification is listed by its parent.
    pub closed spec fn wf(self) -> bool {
        &&& self.subs@.len() >= 1
        &&& self.valid_sub(Self::root())
        &&& self.sub_parent(Self::root()) is None
        &&& forall|s: SubRef|
            self.valid_sub(s) && s.idx != 0 ==> ((#[trigger] self.sub_parent(
                s,
            )) matches Some(p) && p.idx < s.idx && self.valid_sub(p) && self.sub_lines(
                p,
            ).contains(LineItem::Sub(s)))
        &&& forall|s: SubRef| self.valid_sub(s) ==> (#[trigger] self.sub_premises(s)).len() >= 1
        &&& forall|s: SubRef, i: int|
            self.valid_sub(s) && 0 <= i < self.sub_premises(s).len() ==> self.valid_prem(
                #[trigger] self.sub_premises(s)[i],
            ) && self.prem_parent(self.sub_premises(s)[i]) == s
        &&& forall|s: SubRef, i: int|
            self.valid_sub(s) && 0 <= i < self.sub_lines(s).len() ==> match (
            #[trigger] self.sub_lines(s)[i]) {
                LineItem::Just(j) => self.valid_just(j) && self.just_parent(j) == s,
                LineItem::Sub(c) => self.valid_sub(c) && c.idx > s.idx && self.sub_parent(c)
                    == Some(s),
            }
        &&& forall|p: PremRef|
            #[trigger] self.valid_prem(p) ==> self.valid_sub(self.prem_parent(p))
                && self.sub_premises(self.prem_parent(p)).contains(p)
        &&& forall|j: JustRef|
            #[trigger] self.valid_just(j) ==> self.valid_sub(self.just_parent(j))
                && self.sub_lines(self.just_parent(j)).contains(LineItem::Just(j))
        &&& forall|s: SubRef, i1: int, i2: int|
            self.valid_sub(s) && 0 <= i1 < i2 < self.sub_premises(s).len()
                ==> #[trigger] self.sub_premises(s)[i1] != #[trigger] self.sub_premises(s)[i2]
        &&& forall|s: SubRef, i1: int, i2: int|
            self.valid_sub(s) && 0 <= i1 < i2 < self.sub_lines(s).len()
                ==> #[trigger] self.sub_lines(s)[i1] != #[trigger] self.sub_lines(s)[i2]
    }

    /// The premises of `a` at every reference outside `ex` are those of
    /// `b`: same liveness, expression and parent.
    pub open spec fn prems_agree_except(a: ProofTree, b: ProofTree, ex: Set<PremRef>) -> bool {
        forall|p: PremRef|
            !ex.contains(p) ==> #[trigger] b.valid_prem(p) == a.valid_prem(p) && (a.valid_prem(p)
                ==> b.prem_expr(p) == a.prem_expr(p) && b.prem_parent(p) == a.prem_parent(p))
    }

    /// The justifications of `a` at every reference outside `ex` are
    /// those of `b`: same liveness and content.
    pub open spec fn justs_agree_except(a: ProofTree, b: ProofTree, ex: Set<JustRef>) -> bool {
        forall|j: JustRef|
            !ex.contains(j) ==> #[trigger] b.valid_just(j) == a.valid_just(j) && (a.valid_just(j)
                ==> b.just_expr(j) == a.just_expr(j) && b.just_rule(j) == a.just_rule(j)
                && b.just_line_deps(j) == a.just_line_deps(j) && b.just_sub_deps(j)
                == a.just_sub_deps(j) && b.just_parent(j) == a.just_parent(j))
    }

    /// The subproofs of `a` at every reference outside `ex` are those of
    /// `b`: same liveness, parent, premise list and line list.
    pub open spec fn subs_agree_except(a: ProofTree, b: ProofTree, ex: Set<SubRef>) -> bool {
        forall|s: SubRef|
            !ex.contains(s) ==> #[trigger] b.valid_sub(s) == a.valid_sub(s) && (a.valid_sub(s)
                ==> b.sub_parent(s) == a.sub_parent(s) && b.sub_premises(s) == a.sub_premises(s)
                && b.sub_lines(s) == a.sub_lines(s))
    }

    /// Everything agrees but the named references.
    pub open spec fn agree_except(
        a: ProofTree,
        b: ProofTree,
        xp: Set<PremRef>,
        xj: Set<JustRef>,
        xs: Set<SubRef>,
    ) -> bool {
        &&& Self::prems_agree_except(a, b, xp)
        &&& Self::justs_agree_except(a, b, xj)
        &&& Self::subs_agree_except(a, b, xs)
    }

    /// A new document: one root subproof holding one default premise
    /// (an empty-named variable) and one default step (an empty-named
    /// variable justified by the placeholder rule with no dependencies).
    pub fn new() -> (r: ProofTree)
        ensures
            r.wf(),
            r.valid_sub(Self::root()),
            r.sub_premises(Self::root()).len() == 1,
            r.sub_lines(Self::root()).len() == 1,
            r.sub_lines(Self::root())[0] is Just,
            r.valid_prem(r.sub_premises(Self::root())[0]),
            r.prem_parent(r.sub_premises(Self::root())[0]) == Self::root(),
            r.prem_expr(r.sub_premises(Self::root())[0]) == empty_premise_form(),
            r.sub_lines(Self::root())[0] matches LineItem::Just(j) && r.valid_just(j)
                && r.just_parent(j) == Self::root() && r.just_expr(j) == empty_premise_form()
                && r.just_rule(j) == RuleId::Empty && r.just_line_deps(j).len() == 0
                && r.just_sub_deps(j).len() == 0,
    {
        let prem = PremNode { expr: new_empty_premise(), parent: SubRef { idx: 0 } };
        let step = new_empty_step();
        let jnode = JustNode { just: step, parent: SubRef { idx: 0 } };
        let mut premises: Vec<PremRef> = Vec::new();
        premises.push(PremRef { idx: 0 });
        let mut lines: Vec<LineItem> = Vec::new();
        lines.push(LineItem::Just(JustRef { idx: 0 }));
        let root_node = SubNode { parent: None, premises, lines };
        let mut prems: Vec<Option<PremNode>> = Vec::new();
        prems.push(Some(prem));
        let mut justs: Vec<Option<JustNode>> = Vec::new();
        justs.push(Some(jnode));
        let mut subs: Vec<Option<SubNode>> = Vec::new();
        subs.push(Some(root_node));
        ProofTree { prems, justs, subs }
    }

    /// Append a premise to a subproof's premise list. `None`, with the
    /// document unchanged, when `sub` is dangling.
    pub fn add_premise_in(&mut self, sub: SubRef, e: Expr) -> (r: Option<PremRef>)
        requires
            old(self).wf(),
        ensures
            final(self).wf(),
            match r {
                Some(p) => {
                    &&& old(self).valid_sub(sub)
                    &&& !old(self).valid_prem(p)
                    &&& final(self).valid_prem(p)
                    &&& final(self).prem_expr(p) == e@
                    &&& final(self).prem_parent(p) == sub
                    &&& final(self).sub_premises(sub) == old(self).sub_premises(sub).push(p)
                    &&& final(self).sub_lines(sub) == old(self).sub_lines(sub)
                    &&& final(self).sub_parent(sub) == old(self).sub_parent(sub)
                    &&& Self::agree_except(
                        *old(self),
                        *final(self),
                        set![p],
                        Set::empty(),
                        set![sub],
                    )
                },
                None => !old(self).valid_sub(sub) && *final(self) == *old(self),
            },
    {
        if sub.idx >= self.subs.len() {
            return None;
        }
        if self.subs[sub.idx].is_none() {
            return None;
        }
        let p = PremRef { idx: self.prems.len() };
        self.prems.push(Some(PremNode { expr: e, parent: sub }));
        let node = self.subs[sub.idx].as_mut().unwrap();
        node.premises.push(p);
        proof {
            let a = *old(self);
            let b = *self;
            assert(b.sub_premises(sub) =~= a.sub_premises(sub).push(p));
            assert(Self::prems_agree_except(a, b, set![p]));
            assert(Self::justs_agree_except(a, b, Set::empty()));
            assert(Self::subs_agree_except(a, b, set![sub]));
            assert(b.sub_lines(sub) == a.sub_lines(sub));
            assert(b.sub_parent(sub) == a.sub_parent(sub));
            assert forall|s: SubRef| #[trigger] b.valid_sub(s) implies b.sub_premises(s).len()
                >= 1 by {
                assert(a.valid_sub(s));
            }
            assert forall|s: SubRef, i: int|
                b.valid_sub(s) && 0 <= i < b.sub_lines(s).len() implies match (
            #[trigger] b.sub_lines(s)[i]) {
                LineItem::Just(j) => b.valid_just(j) && b.just_parent(j) == s,
                LineItem::Sub(c) => b.valid_sub(c) && c.idx > s.idx && b.sub_parent(c) == Some(s),
            } by {
                assert(a.valid_sub(s));
                assert(b.sub_lines(s) == a.sub_lines(s));
            }
            assert forall|q: PremRef| #[trigger] b.valid_prem(q) implies b.valid_sub(
                b.prem_parent(q),
            ) && b.sub_premises(b.prem_parent(q)).contains(q) by {
                if q == p {
                    assert(b.sub_premises(sub)[a.sub_premises(sub).len() as int] == p);
                } else {
                    assert(a.valid_prem(q));
                    let pa = a.prem_parent(q);
                    let k = choose|k: int|
                        0 <= k < a.sub_premises(pa).len() && a.sub_premises(pa)[k] == q;
                    assert(b.sub_premises(pa)[k] == q);
                }
            }
            assert forall|j: JustRef| #[trigger] b.valid_just(j) implies b.valid_sub(
                b.just_parent(j),
            ) && b.sub_lines(b.just_parent(j)).contains(LineItem::Just(j)) by {
                assert(a.valid_just(j));
            }
            assert forall|s: SubRef, i: int|
                b.valid_sub(s) && 0 <= i < b.sub_premises(s).len() implies b.valid_prem(
                    #[trigger] b.sub_premises(s)[i],
                ) && b.prem_parent(b.sub_premises(s)[i]) == s by {
                assert(a.valid_sub(s));
                if s == sub && i == a.sub_premises(sub).len() {
                } else {
                    assert(b.sub_premises(s)[i] == a.sub_premises(s)[i]);
                }
            }
            assert forall|s: SubRef|
                b.valid_sub(s) && s.idx != 0 implies ((#[trigger] b.sub_parent(
                s,
            )) matches Some(pa) && pa.idx < s.idx && b.valid_sub(pa) && b.sub_lines(pa).contains(
                LineItem::Sub(s),
            )) by {
                assert(a.valid_sub(s));
            }
            assert(b.wf());
        }
        Some(p)
    }

    /// Append a premise to the root subproof.
    pub fn add_premise(&mut self, e: Expr) -> (r: PremRef)
        requires
            old(self).wf(),
        ensures
            final(self).wf(),
            !old(self).valid_prem(r),
            final(self).valid_prem(r),
            final(self).prem_expr(r) == e@,
            final(self).prem_parent(r) == Self::root(),
            final(self).sub_premises(Self::root()) == old(self).sub_premises(Self::root()).push(r),
            final(self).sub_lines(Self::root()) == old(self).sub_lines(Self::root()),
            Self::agree_except(*old(self), *final(self), set![r], Set::empty(), set![Self::root()]),
    {
        let r = self.add_premise_in(SubRef { idx: 0 }, e);
        match r {
            Some(p) => p,
            None => {
                proof {
                    assert(false);
                }
                PremRef { idx: 0 }
            },
        }
    }

    /// Insert a premise beside an existing one, in the same subproof,
    /// before or after it. `None`, with the document unchanged, when
    /// `at` is dangling.
    pub fn add_premise_relative(&mut self, e: Expr, at: PremRef, after: bool) -> (r: Option<
        PremRef,
    >)
        requires
            old(self).wf(),
        ensures
            final(self).wf(),
            match r {
                Some(p) => {
                    &&& old(self).valid_prem(at)
                    &&& !old(self).valid_prem(p)
                    &&& final(self).valid_prem(p)
                    &&& final(self).prem_expr(p) == e@
                    &&& final(self).prem_parent(p) == old(self).prem_parent(at)
                    &&& {
                        let sub = old(self).prem_parent(at);
                        let ps = old(self).sub_premises(sub);
                        exists|k: int|
                            {
                                &&& 0 <= k < ps.len()
                                &&& ps[k] == at
                                &&& final(self).sub_premises(sub) == ps.insert(
                                    if after {
                                        k + 1
                                    } else {
                                        k
                                    },
                                    p,
                                )
                            }
                    }
                    &&& final(self).sub_lines(old(self).prem_parent(at)) == old(self).sub_lines(
                        old(self).prem_parent(at),
                    )
                    &&& Self::agree_except(
                        *old(self),
                        *final(self),
                        set![p],
                        Set::empty(),
                        set![old(self).prem_parent(at)],
                    )
                },
                None => !old(self).valid_prem(at) && *final(self) == *old(self),
            },
    {
        if at.idx >= self.prems.len() {
            return None;
        }
        let sub = match &self.prems[at.idx] {
            Some(n) => n.parent,
            None => {
                return None;
            },
        };
        let p = PremRef { idx: self.prems.len() };
        self.prems.push(Some(PremNode { expr: e, parent: sub }));
        proof {
            assert(old(self).valid_prem(at));
            assert(old(self).sub_premises(sub).contains(at));
        }
        let ghost ps0 = old(self).sub_premises(sub);
        // find `at` in the parent's premise list
        let mut k: usize = 0;
        let mut found: bool = false;
        #[verifier::loop_isolation(false)]
        while !found && k < self.subs[sub.idx].as_ref().unwrap().premises.len()
            invariant
                self.subs@ == old(self).subs@,
                0 <= k <= ps0.len(),
                !found ==> forall|m: int| 0 <= m < k ==> ps0[m] != at,
                found ==> 0 <= k < ps0.len() && ps0[k as int] == at,
            decreases ps0.len() - k + (if found { 0int } else { 1int }),
        {
            if self.subs[sub.idx].as_ref().unwrap().premises[k].idx == at.idx {
                found = true;
            } else {
                k += 1;
            }
        }
        proof {
            if !found {
                let m = choose|m: int| 0 <= m < ps0.len() && ps0[m] == at;
                assert(false);
            }
        }
        let plen = self.subs[sub.idx].as_ref().unwrap().premises.len();
        proof {
            assert(plen == ps0.len());
        }
        let pos = if after {
            k + 1
        } else {
            k
        };
        self.subs[sub.idx].as_mut().unwrap().premises.insert(pos, p);
        proof {
            let a = *old(self);
            let b = *self;
            let ki = k as int;
            let posi = pos as int;
            assert(ps0[ki] == at);
            assert(b.sub_premises(sub) == ps0.insert(posi, p));
            assert(Self::prems_agree_except(a, b, set![p]));
            assert(Self::justs_agree_except(a, b, Set::empty()));
            assert(Self::subs_agree_except(a, b, set![sub]));
            assert(b.sub_lines(sub) == a.sub_lines(sub));
            assert(b.sub_parent(sub) == a.sub_parent(sub));
            assert forall|s: SubRef| #[trigger] b.valid_sub(s) implies b.sub_premises(s).len()
                >= 1 by {
                assert(a.valid_sub(s));
                if s == sub {
                    assert(b.sub_premises(s).len() == ps0.len() + 1);
                }
            }
            assert forall|s: SubRef, i: int|
                b.valid_sub(s) && 0 <= i < b.sub_lines(s).len() implies match (
            #[trigger] b.sub_lines(s)[i]) {
                LineItem::Just(j) => b.valid_just(j) && b.just_parent(j) == s,
                LineItem::Sub(c) => b.valid_sub(c) && c.idx > s.idx && b.sub_parent(c) == Some(s),
            } by {
                assert(a.valid_sub(s));
                assert(b.sub_lines(s) == a.sub_lines(s));
            }
            assert forall|q: PremRef| #[trigger] b.valid_prem(q) implies b.valid_sub(
                b.prem_parent(q),
            ) && b.sub_premises(b.prem_parent(q)).contains(q) by {
                if q == p {
                    assert(b.sub_premises(sub)[posi] == p);
                } else {
                    assert(a.valid_prem(q));
                    let pa = a.prem_parent(q);
                    let m = choose|m: int|
                        0 <= m < a.sub_premises(pa).len() && a.sub_premises(pa)[m] == q;
                    if pa == sub {
                        if m < posi {
                            assert(b.sub_premises(pa)[m] == q);
                        } else {
                            assert(b.sub_premises(pa)[m + 1] == q);
                        }
                    } else {
                        assert(b.sub_premises(pa)[m] == q);
                    }
                }
            }
            assert forall|j: JustRef| #[trigger] b.valid_just(j) implies b.valid_sub(
                b.just_parent(j),
            ) && b.sub_lines(b.just_parent(j)).contains(LineItem::Just(j)) by {
                assert(a.valid_just(j));
            }
            assert forall|s: SubRef, i: int|
                b.valid_sub(s) && 0 <= i < b.sub_premises(s).len() implies b.valid_prem(
                    #[trigger] b.sub_premises(s)[i],
                ) && b.prem_parent(b.sub_premises(s)[i]) == s by {
                assert(a.valid_sub(s));
                if s == sub {
                    if i < posi {
                        assert(b.sub_premises(s)[i] == ps0[i]);
                    } else if i == posi {
                    } else {
                        assert(b.sub_premises(s)[i] == ps0[i - 1]);
                    }
                } else {
                    assert(b.sub_premises(s)[i] == a.sub_premises(s)[i]);
                }
            }
            assert forall|s: SubRef|
                b.valid_sub(s) && s.idx != 0 implies ((#[trigger] b.sub_parent(
                s,
            )) matches Some(pa) && pa.idx < s.idx && b.valid_sub(pa) && b.sub_lines(pa).contains(
                LineItem::Sub(s),
            )) by {
                assert(a.valid_sub(s));
                assert(b.sub_lines(b.sub_parent(s)->Some_0) == a.sub_lines(
                    a.sub_parent(s)->Some_0,
                ));
            }
            assert(b.wf());
        }
        Some(p)
    }

    /// The document's line lists, premise lists and node stores agree
    /// after inserting one fresh justification line: well-formedness is
    /// preserved.
    #[verifier::rlimit(100)]
    proof fn lemma_wf_insert_just(a: ProofTree, b: ProofTree, sub: SubRef, pos: int, j: JustRef)
        requires
            a.wf(),
            a.valid_sub(sub),
            b.valid_sub(sub),
            !a.valid_just(j),
            b.valid_just(j),
            b.just_parent(j) == sub,
            0 <= pos <= a.sub_lines(sub).len(),
            b.sub_lines(sub) == a.sub_lines(sub).insert(pos, LineItem::Just(j)),
            b.sub_premises(sub) == a.sub_premises(sub),
            b.sub_parent(sub) == a.sub_parent(sub),
            Self::prems_agree_except(a, b, Set::empty()),
            Self::justs_agree_except(a, b, set![j]),
            Self::subs_agree_except(a, b, set![sub]),
    ensures
            b.wf(),
    {
        let la = a.sub_lines(sub);
        let lb = b.sub_lines(sub);
        assert(b.valid_sub(Self::root()));
        assert(b.sub_parent(Self::root()) is None);
        assert forall|s: SubRef| #[trigger] b.valid_sub(s) implies b.sub_premises(s).len()
            >= 1 by {
            assert(a.valid_sub(s));
        }
        assert forall|s: SubRef, i: int|
            b.valid_sub(s) && 0 <= i < b.sub_premises(s).len() implies b.valid_prem(
                #[trigger] b.sub_premises(s)[i],
            ) && b.prem_parent(b.sub_premises(s)[i]) == s by {
            assert(a.valid_sub(s));
            assert(b.sub_premises(s) == a.sub_premises(s));
        }
        assert forall|s: SubRef, i: int|
            b.valid_sub(s) && 0 <= i < b.sub_lines(s).len() implies match (
        #[trigger] b.sub_lines(s)[i]) {
            LineItem::Just(j2) => b.valid_just(j2) && b.just_parent(j2) == s,
            LineItem::Sub(c) => b.valid_sub(c) && c.idx > s.idx && b.sub_parent(c) == Some(s),
        } by {
            assert(a.valid_sub(s));
            if s == sub {
                if i < pos {
                    assert(lb[i] == la[i]);
                    match la[i] {
                        LineItem::Just(j2) => {
                            assert(b.valid_just(j2));
                        },
                        LineItem::Sub(c) => {
                            assert(b.valid_sub(c));
                        },
                    }
                } else if i == pos {
                    assert(lb[pos] == LineItem::Just(j));
                } else {
                    assert(lb[i] == la[i - 1]);
                    match la[i - 1] {
                        LineItem::Just(j2) => {
                            assert(b.valid_just(j2));
                        },
                        LineItem::Sub(c) => {
                            assert(b.valid_sub(c));
                        },
                    }
                }
            } else {
                assert(b.sub_lines(s) == a.sub_lines(s));
                match a.sub_lines(s)[i] {
                    LineItem::Just(j2) => {
                        assert(b.valid_just(j2));
                    },
                    LineItem::Sub(c) => {
                        assert(b.valid_sub(c));
                    },
                }
            }
        }
        assert forall|s: SubRef|
            b.valid_sub(s) && s.idx != 0 implies ((#[trigger] b.sub_parent(
            s,
        )) matches Some(pa) && pa.idx < s.idx && b.valid_sub(pa) && b.sub_lines(pa).contains(
            LineItem::Sub(s),
        )) by {
            assert(a.valid_sub(s));
            let pa = a.sub_parent(s)->Some_0;
            assert(a.valid_sub(pa));
            assert(b.valid_sub(pa));
            let m = choose|m: int|
                0 <= m < a.sub_lines(pa).len() && a.sub_lines(pa)[m] == LineItem::Sub(s);
            if pa == sub {
                if m < pos {
                    assert(lb[m] == LineItem::Sub(s));
                } else {
                    assert(lb[m + 1] == LineItem::Sub(s));
                }
            } else {
                assert(b.sub_lines(pa) == a.sub_lines(pa));
            }
        }
        assert forall|q: PremRef| #[trigger] b.valid_prem(q) implies b.valid_sub(b.prem_parent(q))
            && b.sub_premises(b.prem_parent(q)).contains(q) by {
            assert(a.valid_prem(q));
            let pa2 = a.prem_parent(q);
            assert(a.valid_sub(pa2));
            assert(b.valid_sub(pa2));
            assert(b.sub_premises(pa2) == a.sub_premises(pa2));
        }
        assert forall|j2: JustRef| #[trigger] b.valid_just(j2) implies b.valid_sub(
            b.just_parent(j2),
        ) && b.sub_lines(b.just_parent(j2)).contains(LineItem::Just(j2)) by {
            if j2 == j {
                assert(lb[pos] == LineItem::Just(j));
            } else {
                assert(a.valid_just(j2));
                let pa = a.just_parent(j2);
                let m = choose|m: int|
                    0 <= m < a.sub_lines(pa).len() && a.sub_lines(pa)[m] == LineItem::Just(j2);
                if pa == sub {
                    if m < pos {
                        assert(lb[m] == LineItem::Just(j2));
                    } else {
                        assert(lb[m + 1] == LineItem::Just(j2));
                    }
                } else {
                    assert(b.sub_lines(pa) == a.sub_lines(pa));
                }
            }
        }
        Self::lemma_wf_insert_just_uniq(a, b, sub, pos, j);
    }

    /// Uniqueness of listed lines and premises is preserved by the
    /// insertion of one fresh justification line.
    #[verifier::rlimit(100)]
    proof fn lemma_wf_insert_just_uniq(a: ProofTree, b: ProofTree, sub: SubRef, pos: int, j: JustRef)
        requires
            a.wf(),
            a.valid_sub(sub),
            b.valid_sub(sub),
            !a.valid_just(j),
            b.valid_just(j),
            b.just_parent(j) == sub,
            0 <= pos <= a.sub_lines(sub).len(),
            b.sub_lines(sub) == a.sub_lines(sub).insert(pos, LineItem::Just(j)),
            b.sub_premises(sub) == a.sub_premises(sub),
            b.sub_parent(sub) == a.sub_parent(sub),
            Self::prems_agree_except(a, b, Set::empty()),
            Self::justs_agree_except(a, b, set![j]),
            Self::subs_agree_except(a, b, set![sub]),
        ensures
            forall|s: SubRef, i1: int, i2: int|
                b.valid_sub(s) && 0 <= i1 < i2 < b.sub_lines(s).len() ==> (
                #[trigger] b.sub_lines(s)[i1]) != (#[trigger] b.sub_lines(s)[i2]),
            forall|s: SubRef, i1: int, i2: int|
                b.valid_sub(s) && 0 <= i1 < i2 < b.sub_premises(s).len() ==> (
                #[trigger] b.sub_premises(s)[i1]) != (#[trigger] b.sub_premises(s)[i2]),
    {
        let la = a.sub_lines(sub);
        let lb = b.sub_lines(sub);
        assert forall|s: SubRef, i1: int, i2: int|
            b.valid_sub(s) && 0 <= i1 < i2 < b.sub_lines(s).len() implies (
        #[trigger] b.sub_lines(s)[i1]) != (#[trigger] b.sub_lines(s)[i2]) by {
            assert(a.valid_sub(s));
            if s == sub {
                let m1 = if i1 < pos {
                    i1
                } else {
                    i1 - 1
                };
                let m2 = if i2 < pos {
                    i2
                } else {
                    i2 - 1
                };
                if i1 == pos {
                    assert(lb[i2] == la[m2]);
                    if la[m2] == LineItem::Just(j) {
                        assert(a.valid_just(j));
                    }
                } else if i2 == pos {
                    assert(lb[i1] == la[m1]);
                    if la[m1] == LineItem::Just(j) {
                        assert(a.valid_just(j));
                    }
                } else {
                    assert(lb[i1] == la[m1]);
                    assert(lb[i2] == la[m2]);
                }
            } else {
                assert(b.sub_lines(s) == a.sub_lines(s));
            }
        }
        assert forall|s: SubRef, i1: int, i2: int|
            b.valid_sub(s) && 0 <= i1 < i2 < b.sub_premises(s).len() implies (
        #[trigger] b.sub_premises(s)[i1]) != (#[trigger] b.sub_premises(s)[i2]) by {
            assert(a.valid_sub(s));
            assert(b.sub_premises(s) == a.sub_premises(s));
        }
    }

    /// Insert a justification line at the front of a subproof's line
    /// list. `None`, with the document unchanged, when `sub` is
    /// dangling.
    pub fn prepend_step_in(&mut self, sub: SubRef, j: Justification) -> (r: Option<JustRef>)
        requires
            old(self).wf(),
        ensures
            final(self).wf(),
            match r {
                Some(jr) => {
                    &&& old(self).valid_sub(sub)
                    &&& !old(self).valid_just(jr)
                    &&& final(self).valid_just(jr)
                    &&& final(self).just_expr(jr) == j.expr@
                    &&& final(self).just_rule(jr) == j.rule
                    &&& final(self).just_line_deps(jr) == j.line_deps@
                    &&& final(self).just_sub_deps(jr) == j.sub_deps@
                    &&& final(self).just_parent(jr) == sub
                    &&& final(self).sub_lines(sub) == old(self).sub_lines(sub).insert(
                        0,
                        LineItem::Just(jr),
                    )
                    &&& final(self).sub_premises(sub) == old(self).sub_premises(sub)
                    &&& Self::agree_except(
                        *old(self),
                        *final(self),
                        Set::empty(),
                        set![jr],
                        set![sub],
                    )
                },
                None => !old(self).valid_sub(sub) && *final(self) == *old(self),
            },
    {
        if sub.idx >= self.subs.len() {
            return None;
        }
        if self.subs[sub.idx].is_none() {
            return None;
        }
        let ghost la = old(self).sub_lines(sub);
        let jr = JustRef { idx: self.justs.len() };
        let ghost jv = j;
        self.justs.push(Some(JustNode { just: j, parent: sub }));
        self.subs[sub.idx].as_mut().unwrap().lines.insert(0, LineItem::Just(jr));
        proof {
            let a = *old(self);
            let b = *self;
            assert(b.sub_lines(sub) == la.insert(0, LineItem::Just(jr)));
            assert(Self::prems_agree_except(a, b, Set::empty()));
            assert(Self::justs_agree_except(a, b, set![jr]));
            assert(Self::subs_agree_except(a, b, set![sub]));
            Self::lemma_wf_insert_just(a, b, sub, 0, jr);
        }
        Some(jr)
    }

    /// Insert a justification line at the front of the root subproof's
    /// line list.
    pub fn prepend_step(&mut self, j: Justification) -> (r: JustRef)
        requires
            old(self).wf(),
        ensures
            final(self).wf(),
            !old(self).valid_just(r),
            final(self).valid_just(r),
            final(self).just_expr(r) == j.expr@,
            final(self).just_rule(r) == j.rule,
            final(self).just_line_deps(r) == j.line_deps@,
            final(self).just_sub_deps(r) == j.sub_deps@,
            final(self).just_parent(r) == Self::root(),
            final(self).sub_lines(Self::root()) == old(self).sub_lines(Self::root()).insert(
                0,
                LineItem::Just(r),
            ),
            final(self).sub_premises(Self::root()) == old(self).sub_premises(Self::root()),
            Self::agree_except(*old(self), *final(self), Set::empty(), set![r], set![Self::root()]),
    {
        let r = self.prepend_step_in(SubRef { idx: 0 }, j);
        match r {
            Some(jr) => jr,
            None => {
                proof {
                    assert(false);
                }
                JustRef { idx: 0 }
            },
        }
    }

    /// The subproof a line item belongs to: `None` when the item is
    /// dangling or is the root subproof.
    pub open spec fn line_item_parent(self, it: LineItem) -> Option<SubRef> {
        match it {
            LineItem::Just(j) => if self.valid_just(j) {
                Some(self.just_parent(j))
            } else {
                None
            },
            LineItem::Sub(c) => if self.valid_sub(c) {
                self.sub_parent(c)
            } else {
                None
            },
        }
    }

    /// Find the position of a line item in its parent's line list.
    fn find_line_pos(&self, pa: SubRef, at: LineItem) -> (r: usize)
        requires
            self.wf(),
            self.valid_sub(pa),
            self.sub_lines(pa).contains(at),
        ensures
            r < self.sub_lines(pa).len(),
            self.sub_lines(pa)[r as int] == at,
    {
        let ghost la = self.sub_lines(pa);
        let mut k: usize = 0;
        let mut found: bool = false;
        #[verifier::loop_isolation(false)]
        while !found && k < self.subs[pa.idx].as_ref().unwrap().lines.len()
            invariant
                0 <= k <= la.len(),
                !found ==> forall|m: int| 0 <= m < k ==> la[m] != at,
                found ==> 0 <= k < la.len() && la[k as int] == at,
            decreases la.len() - k + (if found { 0int } else { 1int }),
        {
            if self.subs[pa.idx].as_ref().unwrap().lines[k] == at {
                found = true;
            } else {
                k += 1;
            }
        }
        proof {
            if !found {
                let m = choose|m: int| 0 <= m < la.len() && la[m] == at;
                assert(false);
            }
        }
        k
    }

    /// Introduction form of `step_inserted` from its constituent
    /// facts.
    proof fn lemma_step_inserted_intro(
        a: ProofTree,
        b: ProofTree,
        j: Justification,
        at: LineItem,
        after: bool,
        jr: JustRef,
        pa: SubRef,
        ki: int,
    )
        requires
            a.line_item_parent(at) == Some(pa),
            0 <= ki < a.sub_lines(pa).len(),
            a.sub_lines(pa)[ki] == at,
            b.sub_lines(pa) == a.sub_lines(pa).insert(
                if after {
                    ki + 1
                } else {
                    ki
                },
                LineItem::Just(jr),
            ),
            !a.valid_just(jr),
            b.valid_just(jr),
            b.just_expr(jr) == j.expr@,
            b.just_rule(jr) == j.rule,
            b.just_line_deps(jr) == j.line_deps@,
            b.just_sub_deps(jr) == j.sub_deps@,
            b.just_parent(jr) == pa,
            b.sub_premises(pa) == a.sub_premises(pa),
            Self::agree_except(a, b, Set::empty(), set![jr], set![pa]),
        ensures
            Self::step_inserted(a, b, j, at, after, jr),
    {
        let pa2 = a.line_item_parent(at)->Some_0;
        assert(pa2 == pa);
        let la = a.sub_lines(pa2);
        assert(la[ki] == at && b.sub_lines(pa2) == la.insert(
            if after {
                ki + 1
            } else {
                ki
            },
            LineItem::Just(jr),
        ));
        assert(exists|k: int|
            {
                &&& 0 <= k < la.len()
                &&& la[k] == at
                &&& b.sub_lines(pa2) == la.insert(
                    if after {
                        k + 1
                    } else {
                        k
                    },
                    LineItem::Just(jr),
                )
            });
    }

    /// What a successful relative step insertion did: a fresh line
    /// `jr` carrying `j`, inserted in the line list of `at`'s subproof
    /// beside `at`, everything else untouched.
    pub open spec fn step_inserted(
        a: ProofTree,
        b: ProofTree,
        j: Justification,
        at: LineItem,
        after: bool,
        jr: JustRef,
    ) -> bool {
        &&& a.line_item_parent(at) is Some
        &&& {
            let pa = a.line_item_parent(at)->Some_0;
            let la = a.sub_lines(pa);
            &&& !a.valid_just(jr)
            &&& b.valid_just(jr)
            &&& b.just_expr(jr) == j.expr@
            &&& b.just_rule(jr) == j.rule
            &&& b.just_line_deps(jr) == j.line_deps@
            &&& b.just_sub_deps(jr) == j.sub_deps@
            &&& b.just_parent(jr) == pa
            &&& exists|k: int|
                {
                    &&& 0 <= k < la.len()
                    &&& la[k] == at
                    &&& b.sub_lines(pa) == la.insert(
                        if after {
                            k + 1
                        } else {
                            k
                        },
                        LineItem::Just(jr),
                    )
                }
            &&& b.sub_premises(pa) == a.sub_premises(pa)
            &&& Self::agree_except(a, b, Set::empty(), set![jr], set![pa])
        }
    }

    /// Insert a justification line beside an existing line item, in the
    /// item's own subproof, before or after it. `None`, with the
    /// document unchanged, when the item is dangling or is the root.
    #[verifier::rlimit(100)]
    #[verifier::spinoff_prover]
    pub fn add_step_relative(&mut self, j: Justification, at: LineItem, after: bool) -> (r: Option<
        JustRef,
    >)
        requires
            old(self).wf(),
        ensures
            final(self).wf(),
            match r {
                Some(jr) => Self::step_inserted(*old(self), *final(self), j, at, after, jr),
                None => old(self).line_item_parent(at) is None && *final(self) == *old(self),
            },
    {
        let pa = match at {
            LineItem::Just(jr) => {
                if jr.idx >= self.justs.len() {
                    return None;
                }
                match &self.justs[jr.idx] {
                    Some(n) => n.parent,
                    None => {
                        return None;
                    },
                }
            },
            LineItem::Sub(cr) => {
                if cr.idx >= self.subs.len() {
                    return None;
                }
                match &self.subs[cr.idx] {
                    Some(n) => match n.parent {
                        Some(p) => p,
                        None => {
                            return None;
                        },
                    },
                    None => {
                        return None;
                    },
                }
            },
        };
        let ghost la = old(self).sub_lines(pa);
        proof {
            match at {
                LineItem::Just(x) => {
                    assert(old(self).valid_just(x));
                },
                LineItem::Sub(x) => {
                    assert(old(self).valid_sub(x));
                },
            }
        }
        let k = self.find_line_pos(pa, at);
        let nlen = self.subs[pa.idx].as_ref().unwrap().lines.len();
        proof {
            assert(nlen == la.len());
        }
        let pos = if after {
            k + 1
        } else {
            k
        };
        let jr = JustRef { idx: self.justs.len() };
        self.justs.push(Some(JustNode { just: j, parent: pa }));
        self.subs[pa.idx].as_mut().unwrap().lines.insert(pos, LineItem::Just(jr));
        proof {
            let a = *old(self);
            let b = *self;
            assert(b.sub_lines(pa) == la.insert(pos as int, LineItem::Just(jr)));
            assert(Self::prems_agree_except(a, b, Set::empty()));
            assert(Self::justs_agree_except(a, b, set![jr]));
            assert(Self::subs_agree_except(a, b, set![pa]));
            Self::lemma_wf_insert_just(a, b, pa, pos as int, jr);
            let ki = k as int;
            assert(a.line_item_parent(at) == Some(pa));
            assert(0 <= ki < la.len() && la[ki] == at && b.sub_lines(pa) == la.insert(
                if after {
                    ki + 1
                } else {
                    ki
                },
                LineItem::Just(jr),
            ));
            assert(b.just_expr(jr) == j.expr@ && b.just_rule(jr) == j.rule && b.just_line_deps(
                jr,
            ) == j.line_deps@ && b.just_sub_deps(jr) == j.sub_deps@ && b.just_parent(jr) == pa);
            assert(b.sub_premises(pa) == a.sub_premises(pa));
            assert(Self::agree_except(a, b, Set::empty(), set![jr], set![pa]));
            assert(!a.valid_just(jr));
            Self::lemma_step_inserted_intro(a, b, j, at, after, jr, pa, ki);
            assert(Self::step_inserted(a, b, j, at, after, jr));
        }
        Some(jr)
    }

    /// Well-formedness is preserved by inserting one fresh subproof,
    /// holding one fresh premise and one fresh justification, into a
    /// live subproof's line list.
    #[verifier::rlimit(100)]
    proof fn lemma_wf_insert_sub(a: ProofTree, b: ProofTree, pa: SubRef, pos: int, c: SubRef)
        requires
            a.wf(),
            a.valid_sub(pa),
            b.valid_sub(pa),
            !a.valid_sub(c),
            b.valid_sub(c),
            b.sub_parent(c) == Some(pa),
            c.idx > pa.idx,
            b.sub_premises(c).len() == 1,
            b.sub_lines(c).len() == 1,
            !a.valid_prem(b.sub_premises(c)[0]),
            b.valid_prem(b.sub_premises(c)[0]),
            b.prem_parent(b.sub_premises(c)[0]) == c,
            b.sub_lines(c)[0] matches LineItem::Just(j0) && !a.valid_just(j0) && b.valid_just(j0)
                && b.just_parent(j0) == c,
            0 <= pos <= a.sub_lines(pa).len(),
            b.sub_lines(pa) == a.sub_lines(pa).insert(pos, LineItem::Sub(c)),
            b.sub_premises(pa) == a.sub_premises(pa),
            b.sub_parent(pa) == a.sub_parent(pa),
            Self::prems_agree_except(a, b, set![b.sub_premises(c)[0]]),
            Self::justs_agree_except(a, b, set![b.sub_lines(c)[0]->Just_0]),
            Self::subs_agree_except(a, b, set![pa, c]),
        ensures
            b.wf(),
    {
        let la = a.sub_lines(pa);
        let lb = b.sub_lines(pa);
        let p0 = b.sub_premises(c)[0];
        let j0 = b.sub_lines(c)[0]->Just_0;
        assert(c != Self::root());
        assert(b.valid_sub(Self::root()));
        assert(b.sub_parent(Self::root()) is None);
        assert forall|s: SubRef| #[trigger] b.valid_sub(s) implies b.sub_premises(s).len()
            >= 1 by {
            if s != c {
                assert(a.valid_sub(s));
            }
        }
        assert forall|s: SubRef, i: int|
            b.valid_sub(s) && 0 <= i < b.sub_premises(s).len() implies b.valid_prem(
                #[trigger] b.sub_premises(s)[i],
            ) && b.prem_parent(b.sub_premises(s)[i]) == s by {
            if s == c {
            } else {
                assert(a.valid_sub(s));
                assert(b.sub_premises(s) == a.sub_premises(s));
                assert(a.valid_prem(a.sub_premises(s)[i]));
                assert(b.valid_prem(b.sub_premises(s)[i]));
            }
        }
        assert forall|s: SubRef, i: int|
            b.valid_sub(s) && 0 <= i < b.sub_lines(s).len() implies match (
        #[trigger] b.sub_lines(s)[i]) {
            LineItem::Just(j2) => b.valid_just(j2) && b.just_parent(j2) == s,
            LineItem::Sub(c2) => b.valid_sub(c2) && c2.idx > s.idx && b.sub_parent(c2) == Some(s),
        } by {
            if s == c {
            } else if s == pa {
                if i < pos {
                    assert(lb[i] == la[i]);
                    match la[i] {
                        LineItem::Just(j2) => {
                            assert(b.valid_just(j2));
                        },
                        LineItem::Sub(c2) => {
                            assert(b.valid_sub(c2));
                        },
                    }
                } else if i == pos {
                    assert(lb[pos] == LineItem::Sub(c));
                } else {
                    assert(lb[i] == la[i - 1]);
                    match la[i - 1] {
                        LineItem::Just(j2) => {
                            assert(b.valid_just(j2));
                        },
                        LineItem::Sub(c2) => {
                            assert(b.valid_sub(c2));
                        },
                    }
                }
            } else {
                assert(a.valid_sub(s));
                assert(b.sub_lines(s) == a.sub_lines(s));
                match a.sub_lines(s)[i] {
                    LineItem::Just(j2) => {
                        assert(b.valid_just(j2));
                    },
                    LineItem::Sub(c2) => {
                        assert(b.valid_sub(c2));
                    },
                }
            }
        }
        assert forall|s: SubRef|
            b.valid_sub(s) && s.idx != 0 implies ((#[trigger] b.sub_parent(
            s,
        )) matches Some(q) && q.idx < s.idx && b.valid_sub(q) && b.sub_lines(q).contains(
            LineItem::Sub(s),
        )) by {
            if s == c {
                assert(lb[pos] == LineItem::Sub(c));
            } else {
                assert(a.valid_sub(s));
                let q = a.sub_parent(s)->Some_0;
                assert(a.valid_sub(q));
                assert(b.valid_sub(q));
                let m = choose|m: int|
                    0 <= m < a.sub_lines(q).len() && a.sub_lines(q)[m] == LineItem::Sub(s);
                if q == pa {
                    if m < pos {
                        assert(lb[m] == LineItem::Sub(s));
                    } else {
                        assert(lb[m + 1] == LineItem::Sub(s));
                    }
                } else {
                    assert(b.sub_lines(q) == a.sub_lines(q));
                }
            }
        }
        assert forall|q: PremRef| #[trigger] b.valid_prem(q) implies b.valid_sub(b.prem_parent(q))
            && b.sub_premises(b.prem_parent(q)).contains(q) by {
            if q == p0 {
                assert(b.sub_premises(c)[0] == p0);
            } else {
                assert(a.valid_prem(q));
                let s = a.prem_parent(q);
                assert(a.valid_sub(s));
                assert(b.valid_sub(s));
                assert(s != c);
                assert(b.sub_premises(s) == a.sub_premises(s));
            }
        }
        assert forall|j2: JustRef| #[trigger] b.valid_just(j2) implies b.valid_sub(
            b.just_parent(j2),
        ) && b.sub_lines(b.just_parent(j2)).contains(LineItem::Just(j2)) by {
            if j2 == j0 {
                assert(b.sub_lines(c)[0] == LineItem::Just(j0));
            } else {
                assert(a.valid_just(j2));
                let s = a.just_parent(j2);
                assert(a.valid_sub(s));
                assert(b.valid_sub(s));
                assert(s != c);
                let m = choose|m: int|
                    0 <= m < a.sub_lines(s).len() && a.sub_lines(s)[m] == LineItem::Just(j2);
                if s == pa {
                    if m < pos {
                        assert(lb[m] == LineItem::Just(j2));
                    } else {
                        assert(lb[m + 1] == LineItem::Just(j2));
                    }
                } else {
                    assert(b.sub_lines(s) == a.sub_lines(s));
                }
            }
        }
        assert forall|s: SubRef, i1: int, i2: int|
            b.valid_sub(s) && 0 <= i1 < i2 < b.sub_premises(s).len() implies (
        #[trigger] b.sub_premises(s)[i1]) != (#[trigger] b.sub_premises(s)[i2]) by {
            if s != c {
                assert(a.valid_sub(s));
                assert(b.sub_premises(s) == a.sub_premises(s));
            }
        }
        assert forall|s: SubRef, i1: int, i2: int|
            b.valid_sub(s) && 0 <= i1 < i2 < b.sub_lines(s).len() implies (
        #[trigger] b.sub_lines(s)[i1]) != (#[trigger] b.sub_lines(s)[i2]) by {
            if s == pa {
                let m1 = if i1 < pos {
                    i1
                } else {
                    i1 - 1
                };
                let m2 = if i2 < pos {
                    i2
                } else {
                    i2 - 1
                };
                if i1 == pos {
                    assert(lb[i2] == la[m2]);
                    if la[m2] == LineItem::Sub(c) {
                        assert(a.valid_sub(c));
                    }
                } else if i2 == pos {
                    assert(lb[i1] == la[m1]);
                    if la[m1] == LineItem::Sub(c) {
                        assert(a.valid_sub(c));
                    }
                } else {
                    assert(lb[i1] == la[m1]);
                    assert(lb[i2] == la[m2]);
                }
            } else if s != c {
                assert(a.valid_sub(s));
                assert(b.sub_lines(s) == a.sub_lines(s));
            }
        }
    }

    /// Insert a fresh subproof beside an existing line item, in the
    /// item's own subproof, before or after it. The new subproof starts
    /// with one default premise and one default step. `None`, with the
    /// document unchanged, when the item is dangling or is the root.
    pub fn add_subproof_relative(&mut self, at: LineItem, after: bool) -> (r: Option<SubRef>)
        requires
            old(self).wf(),
        ensures
            final(self).wf(),
            match r {
                Some(c) => {
                    &&& old(self).line_item_parent(at) matches Some(pa)
                    &&& {
                        let pa = old(self).line_item_parent(at)->Some_0;
                        let la = old(self).sub_lines(pa);
                        &&& !old(self).valid_sub(c)
                        &&& final(self).valid_sub(c)
                        &&& final(self).sub_parent(c) == Some(pa)
                        &&& final(self).sub_premises(c).len() == 1
                        &&& final(self).sub_lines(c).len() == 1
                        &&& !old(self).valid_prem(final(self).sub_premises(c)[0])
                        &&& final(self).valid_prem(final(self).sub_premises(c)[0])
                        &&& final(self).prem_expr(final(self).sub_premises(c)[0])
                            == empty_premise_form()
                        &&& final(self).sub_lines(c)[0] matches LineItem::Just(j0)
                            && !old(self).valid_just(j0) && final(self).valid_just(j0)
                            && final(self).just_expr(j0) == empty_premise_form()
                            && final(self).just_rule(j0) == RuleId::Empty
                            && final(self).just_line_deps(j0).len() == 0
                            && final(self).just_sub_deps(j0).len() == 0
                        &&& exists|k: int|
                            {
                                &&& 0 <= k < la.len()
                                &&& la[k] == at
                                &&& final(self).sub_lines(pa) == la.insert(
                                    if after {
                                        k + 1
                                    } else {
                                        k
                                    },
                                    LineItem::Sub(c),
                                )
                            }
                        &&& final(self).sub_premises(pa) == old(self).sub_premises(pa)
                        &&& Self::agree_except(
                            *old(self),
                            *final(self),
                            set![final(self).sub_premises(c)[0]],
                            set![final(self).sub_lines(c)[0]->Just_0],
                            set![pa, c],
                        )
                    }
                },
                None => old(self).line_item_parent(at) is None && *final(self) == *old(self),
            },
    {
        let pa = match at {
            LineItem::Just(jr) => {
                if jr.idx >= self.justs.len() {
                    return None;
                }
                match &self.justs[jr.idx] {
                    Some(n) => n.parent,
                    None => {
                        return None;
                    },
                }
            },
            LineItem::Sub(cr) => {
                if cr.idx >= self.subs.len() {
                    return None;
                }
                match &self.subs[cr.idx] {
                    Some(n) => match n.parent {
                        Some(p) => p,
                        None => {
                            return None;
                        },
                    },
                    None => {
                        return None;
                    },
                }
            },
        };
        let ghost la = old(self).sub_lines(pa);
        proof {
            match at {
                LineItem::Just(x) => {
                    assert(old(self).valid_just(x));
                },
                LineItem::Sub(x) => {
                    assert(old(self).valid_sub(x));
                },
            }
        }
        let k = self.find_line_pos(pa, at);
        let nlen = self.subs[pa.idx].as_ref().unwrap().lines.len();
        proof {
            assert(nlen == la.len());
        }
        let pos = if after {
            k + 1
        } else {
            k
        };
        let p0 = PremRef { idx: self.prems.len() };
        let c = SubRef { idx: self.subs.len() };
        let j0 = JustRef { idx: self.justs.len() };
        self.prems.push(Some(PremNode { expr: new_empty_premise(), parent: c }));
        self.justs.push(Some(JustNode { just: new_empty_step(), parent: c }));
        let mut premises: Vec<PremRef> = Vec::new();
        premises.push(p0);
        let mut lines: Vec<LineItem> = Vec::new();
        lines.push(LineItem::Just(j0));
        self.subs.push(Some(SubNode { parent: Some(pa), premises, lines }));
        self.subs[pa.idx].as_mut().unwrap().lines.insert(pos, LineItem::Sub(c));
        proof {
            let a = *old(self);
            let b = *self;
            assert(b.sub_premises(c)[0] == p0);
            assert(b.sub_lines(c)[0] == LineItem::Just(j0));
            assert(b.sub_lines(pa) == la.insert(pos as int, LineItem::Sub(c)));
            assert(Self::prems_agree_except(a, b, set![p0]));
            assert(Self::justs_agree_except(a, b, set![j0]));
            assert(Self::subs_agree_except(a, b, set![pa, c]));
            Self::lemma_wf_insert_sub(a, b, pa, pos as int, c);
            let ki = k as int;
            assert(a.line_item_parent(at) == Some(pa));
            assert(0 <= ki < la.len() && la[ki] == at && b.sub_lines(pa) == la.insert(
                if after {
                    ki + 1
                } else {
                    ki
                },
                LineItem::Sub(c),
            ));
        }
        Some(c)
    }

    /// Well-formedness depends only on liveness, parents and lists, not
    /// on line content: a document of the same shape as a well-formed
    /// one is well-formed.
    proof fn lemma_wf_same_shape(a: ProofTree, b: ProofTree)
        requires
            a.wf(),
            forall|p: PremRef|
                #[trigger] b.valid_prem(p) == a.valid_prem(p) && (a.valid_prem(p)
                    ==> b.prem_parent(p) == a.prem_parent(p)),
            forall|j: JustRef|
                #[trigger] b.valid_just(j) == a.valid_just(j) && (a.valid_just(j)
                    ==> b.just_parent(j) == a.just_parent(j)),
            forall|s: SubRef|
                #[trigger] b.valid_sub(s) == a.valid_sub(s) && (a.valid_sub(s) ==> b.sub_parent(s)
                    == a.sub_parent(s) && b.sub_premises(s) == a.sub_premises(s) && b.sub_lines(s)
                    == a.sub_lines(s)),
        ensures
            b.wf(),
    {
        assert(b.valid_sub(Self::root()));
        assert forall|s: SubRef| #[trigger] b.valid_sub(s) implies b.sub_premises(s).len()
            >= 1 by {
            assert(a.valid_sub(s));
        }
        assert forall|s: SubRef, i: int|
            b.valid_sub(s) && 0 <= i < b.sub_premises(s).len() implies b.valid_prem(
                #[trigger] b.sub_premises(s)[i],
            ) && b.prem_parent(b.sub_premises(s)[i]) == s by {
            assert(a.valid_sub(s));
            let p = b.sub_premises(s)[i];
            assert(a.valid_prem(p));
            assert(b.valid_prem(p));
        }
        assert forall|s: SubRef, i: int|
            b.valid_sub(s) && 0 <= i < b.sub_lines(s).len() implies match (
        #[trigger] b.sub_lines(s)[i]) {
            LineItem::Just(j2) => b.valid_just(j2) && b.just_parent(j2) == s,
            LineItem::Sub(c) => b.valid_sub(c) && c.idx > s.idx && b.sub_parent(c) == Some(s),
        } by {
            assert(a.valid_sub(s));
            match a.sub_lines(s)[i] {
                LineItem::Just(j2) => {
                    assert(a.valid_just(j2));
                    assert(b.valid_just(j2));
                },
                LineItem::Sub(c) => {
                    assert(a.valid_sub(c));
                    assert(b.valid_sub(c));
                },
            }
        }
        assert forall|s: SubRef|
            b.valid_sub(s) && s.idx != 0 implies ((#[trigger] b.sub_parent(
            s,
        )) matches Some(p) && p.idx < s.idx && b.valid_sub(p) && b.sub_lines(p).contains(
            LineItem::Sub(s),
        )) by {
            assert(a.valid_sub(s));
            let p = a.sub_parent(s)->Some_0;
            assert(a.valid_sub(p));
            assert(b.valid_sub(p));
        }
        assert forall|q: PremRef| #[trigger] b.valid_prem(q) implies b.valid_sub(b.prem_parent(q))
            && b.sub_premises(b.prem_parent(q)).contains(q) by {
            assert(a.valid_prem(q));
            let pa = a.prem_parent(q);
            assert(a.valid_sub(pa));
            assert(b.valid_sub(pa));
        }
        assert forall|j2: JustRef| #[trigger] b.valid_just(j2) implies b.valid_sub(
            b.just_parent(j2),
        ) && b.sub_lines(b.just_parent(j2)).contains(LineItem::Just(j2)) by {
            assert(a.valid_just(j2));
            let pa = a.just_parent(j2);
            assert(a.valid_sub(pa));
            assert(b.valid_sub(pa));
        }
        assert forall|s: SubRef, i1: int, i2: int|
            b.valid_sub(s) && 0 <= i1 < i2 < b.sub_premises(s).len() implies (
        #[trigger] b.sub_premises(s)[i1]) != (#[trigger] b.sub_premises(s)[i2]) by {
            assert(a.valid_sub(s));
        }
        assert forall|s: SubRef, i1: int, i2: int|
            b.valid_sub(s) && 0 <= i1 < i2 < b.sub_lines(s).len() implies (
        #[trigger] b.sub_lines(s)[i1]) != (#[trigger] b.sub_lines(s)[i2]) by {
            assert(a.valid_sub(s));
        }
    }

    /// Replace the expression of a premise. `false`, with the document
    /// unchanged, when the reference is dangling.
    pub fn set_premise_expr(&mut self, p: PremRef, e: Expr) -> (r: bool)
        requires
            old(self).wf(),
        ensures
            final(self).wf(),
            r == old(self).valid_prem(p),
            r ==> final(self).valid_prem(p) && final(self).prem_expr(p) == e@ && final(self).prem_parent(p) == old(self).prem_parent(p) && Self::agree_except(
                *old(self),
                *final(self),
                set![p],
                Set::empty(),
                Set::empty(),
            ),
            !r ==> *final(self) == *old(self),
    {
        if p.idx >= self.prems.len() {
            return false;
        }
        let parent = match &self.prems[p.idx] {
            Some(n) => n.parent,
            None => {
                return false;
            },
        };
        self.prems[p.idx] = Some(PremNode { expr: e, parent });
        proof {
            Self::lemma_wf_same_shape(*old(self), *self);
        }
        true
    }

    /// Replace the conclusion expression of a justification. `false`,
    /// with the document unchanged, when the reference is dangling.
    pub fn set_step_expr(&mut self, j: JustRef, e: Expr) -> (r: bool)
        requires
            old(self).wf(),
        ensures
            final(self).wf(),
            r == old(self).valid_just(j),
            r ==> final(self).valid_just(j) && final(self).just_expr(j) == e@ && final(self).just_rule(j) == old(self).just_rule(j) && final(self).just_line_deps(j) == old(self).just_line_deps(j) && final(self).just_sub_deps(j) == old(self).just_sub_deps(j)
                && final(self).just_parent(j) == old(self).just_parent(j) && Self::agree_except(
                *old(self),
                *final(self),
                Set::empty(),
                set![j],
                Set::empty(),
            ),
            !r ==> *final(self) == *old(self),
    {
        if j.idx >= self.justs.len() {
            return false;
        }
        if self.justs[j.idx].is_none() {
            return false;
        }
        match self.justs[j.idx].take() {
            Some(n) => {
                let JustNode { just, parent } = n;
                let Justification { expr: _, rule, line_deps, sub_deps } = just;
                self.justs[j.idx] = Some(
                    JustNode { just: Justification { expr: e, rule, line_deps, sub_deps }, parent },
                );
                proof {
                    Self::lemma_wf_same_shape(*old(self), *self);
                }
                true
            },
            None => {
                proof {
                    assert(false);
                }
                false
            },
        }
    }

    /// Replace the cited rule of a justification. `false`, with the
    /// document unchanged, when the reference is dangling.
    pub fn set_step_rule(&mut self, j: JustRef, rule: RuleId) -> (r: bool)
        requires
            old(self).wf(),
        ensures
            final(self).wf(),
            r == old(self).valid_just(j),
            r ==> final(self).valid_just(j) && final(self).just_rule(j) == rule && final(self).just_expr(j) == old(self).just_expr(j) && final(self).just_line_deps(j) == old(self).just_line_deps(j) && final(self).just_sub_deps(j) == old(self).just_sub_deps(j)
                && final(self).just_parent(j) == old(self).just_parent(j) && Self::agree_except(
                *old(self),
                *final(self),
                Set::empty(),
                set![j],
                Set::empty(),
            ),
            !r ==> *final(self) == *old(self),
    {
        if j.idx >= self.justs.len() {
            return false;
        }
        if self.justs[j.idx].is_none() {
            return false;
        }
        match self.justs[j.idx].take() {
            Some(n) => {
                let JustNode { just, parent } = n;
                let Justification { expr, rule: _, line_deps, sub_deps } = just;
                self.justs[j.idx] = Some(
                    JustNode { just: Justification { expr, rule, line_deps, sub_deps }, parent },
                );
                proof {
                    Self::lemma_wf_same_shape(*old(self), *self);
                }
                true
            },
            None => {
                proof {
                    assert(false);
                }
                false
            },
        }
    }

    /// Add a cited line dependency when absent, remove it when present.
    /// `false`, with the document unchanged, when the justification is
    /// dangling.
    pub fn toggle_line_dep(&mut self, j: JustRef, dep: PjRef) -> (r: bool)
        requires
            old(self).wf(),
        ensures
            final(self).wf(),
            r == old(self).valid_just(j),
            r ==> final(self).valid_just(j) && final(self).just_line_deps(j) == (
            if old(self).just_line_deps(j).contains(dep) {
                old(self).just_line_deps(j).filter(|d: PjRef| d != dep)
            } else {
                old(self).just_line_deps(j).push(dep)
            }) && final(self).just_expr(j) == old(self).just_expr(j) && final(self).just_rule(j)
                == old(self).just_rule(j) && final(self).just_sub_deps(j) == old(self).just_sub_deps(j) && final(self).just_parent(j) == old(self).just_parent(j)
                && Self::agree_except(
                *old(self),
                *final(self),
                Set::empty(),
                set![j],
                Set::empty(),
            ),
            !r ==> *final(self) == *old(self),
    {
        if j.idx >= self.justs.len() {
            return false;
        }
        if self.justs[j.idx].is_none() {
            return false;
        }
        match self.justs[j.idx].take() {
            Some(n) => {
                let JustNode { just, parent } = n;
                let Justification { expr, rule, line_deps, sub_deps } = just;
                let line_deps = toggle_pj(line_deps, dep);
                self.justs[j.idx] = Some(
                    JustNode { just: Justification { expr, rule, line_deps, sub_deps }, parent },
                );
                proof {
                    Self::lemma_wf_same_shape(*old(self), *self);
                }
                true
            },
            None => {
                proof {
                    assert(false);
                }
                false
            },
        }
    }

    /// Add a cited subproof dependency when absent, remove it when
    /// present. `false`, with the document unchanged, when the
    /// justification is dangling.
    pub fn toggle_sub_dep(&mut self, j: JustRef, dep: SubRef) -> (r: bool)
        requires
            old(self).wf(),
        ensures
            final(self).wf(),
            r == old(self).valid_just(j),
            r ==> final(self).valid_just(j) && final(self).just_sub_deps(j) == (
            if old(self).just_sub_deps(j).contains(dep) {
                old(self).just_sub_deps(j).filter(|d: SubRef| d != dep)
            } else {
                old(self).just_sub_deps(j).push(dep)
            }) && final(self).just_expr(j) == old(self).just_expr(j) && final(self).just_rule(j)
                == old(self).just_rule(j) && final(self).just_line_deps(j) == old(self).just_line_deps(j) && final(self).just_parent(j) == old(self).just_parent(j)
                && Self::agree_except(
                *old(self),
                *final(self),
                Set::empty(),
                set![j],
                Set::empty(),
            ),
            !r ==> *final(self) == *old(self),
    {
        if j.idx >= self.justs.len() {
            return false;
        }
        if self.justs[j.idx].is_none() {
            return false;
        }
        match self.justs[j.idx].take() {
            Some(n) => {
                let JustNode { just, parent } = n;
                let Justification { expr, rule, line_deps, sub_deps } = just;
                let sub_deps = toggle_sub(sub_deps, dep);
                self.justs[j.idx] = Some(
                    JustNode { just: Justification { expr, rule, line_deps, sub_deps }, parent },
                );
                proof {
                    Self::lemma_wf_same_shape(*old(self), *self);
                }
                true
            },
            None => {
                proof {
                    assert(false);
                }
                false
            },
        }
    }

    /// Well-formedness is preserved by removing one top-level premise,
    /// while another remains.
    #[verifier::rlimit(100)]
    proof fn lemma_wf_remove_prem(a: ProofTree, b: ProofTree, p: PremRef, ki: int)
        requires
            a.wf(),
            0 <= ki < a.sub_premises(Self::root()).len(),
            a.sub_premises(Self::root())[ki] == p,
            a.sub_premises(Self::root()).len() > 1,
            !b.valid_prem(p),
            b.valid_sub(Self::root()),
            b.sub_premises(Self::root()) == a.sub_premises(Self::root()).remove(ki),
            b.sub_lines(Self::root()) == a.sub_lines(Self::root()),
            b.sub_parent(Self::root()) == a.sub_parent(Self::root()),
            Self::prems_agree_except(a, b, set![p]),
            Self::justs_agree_except(a, b, Set::empty()),
            Self::subs_agree_except(a, b, set![Self::root()]),
        ensures
            b.wf(),
    {
        let ps0 = a.sub_premises(Self::root());
            
            assert(b.valid_sub(Self::root()));
            assert forall|s: SubRef| #[trigger] b.valid_sub(s) implies b.sub_premises(
                s,
            ).len() >= 1 by {
                assert(a.valid_sub(s));
            }
            assert forall|s: SubRef, i: int|
                b.valid_sub(s) && 0 <= i < b.sub_premises(s).len() implies b.valid_prem(
                    #[trigger] b.sub_premises(s)[i],
                ) && b.prem_parent(b.sub_premises(s)[i]) == s by {
                assert(a.valid_sub(s));
                if s == Self::root() {
                    let q = if i < ki {
                        ps0[i]
                    } else {
                        ps0[i + 1]
                    };
                    assert(b.sub_premises(s)[i] == q);
                    assert(a.valid_prem(q));
                    assert(q != p);
                } else {
                    assert(b.sub_premises(s) == a.sub_premises(s));
                    let q = a.sub_premises(s)[i];
                    assert(a.valid_prem(q));
                    assert(a.prem_parent(q) == s);
                    assert(q != p);
                }
            }
            assert forall|s: SubRef, i: int|
                b.valid_sub(s) && 0 <= i < b.sub_lines(s).len() implies match (
            #[trigger] b.sub_lines(s)[i]) {
                LineItem::Just(j2) => b.valid_just(j2) && b.just_parent(j2) == s,
                LineItem::Sub(c) => b.valid_sub(c) && c.idx > s.idx && b.sub_parent(c)
                    == Some(s),
            } by {
                assert(a.valid_sub(s));
                assert(b.sub_lines(s) == a.sub_lines(s));
                match a.sub_lines(s)[i] {
                    LineItem::Just(j2) => {
                        assert(b.valid_just(j2));
                    },
                    LineItem::Sub(c) => {
                        assert(b.valid_sub(c));
                    },
                }
            }
            assert forall|s: SubRef|
                b.valid_sub(s) && s.idx != 0 implies ((#[trigger] b.sub_parent(
                s,
            )) matches Some(q) && q.idx < s.idx && b.valid_sub(q) && b.sub_lines(
                q,
            ).contains(LineItem::Sub(s))) by {
                assert(a.valid_sub(s));
                let q = a.sub_parent(s)->Some_0;
                assert(a.valid_sub(q));
                assert(b.valid_sub(q));
                assert(b.sub_lines(q) == a.sub_lines(q));
            }
            assert forall|q: PremRef| #[trigger] b.valid_prem(q) implies b.valid_sub(
                b.prem_parent(q),
            ) && b.sub_premises(b.prem_parent(q)).contains(q) by {
                assert(a.valid_prem(q));
                let pa2 = a.prem_parent(q);
                assert(a.valid_sub(pa2));
                assert(b.valid_sub(pa2));
                let m = choose|m: int|
                    0 <= m < a.sub_premises(pa2).len() && a.sub_premises(pa2)[m] == q;
                if pa2 == Self::root() {
                    assert(q != p);
                    assert(m != ki);
                    if m < ki {
                        assert(b.sub_premises(pa2)[m] == q);
                    } else {
                        assert(b.sub_premises(pa2)[m - 1] == q);
                    }
                } else {
                    assert(b.sub_premises(pa2) == a.sub_premises(pa2));
                }
            }
            assert forall|j2: JustRef| #[trigger] b.valid_just(j2) implies b.valid_sub(
                b.just_parent(j2),
            ) && b.sub_lines(b.just_parent(j2)).contains(LineItem::Just(j2)) by {
                assert(a.valid_just(j2));
                let pa2 = a.just_parent(j2);
                assert(a.valid_sub(pa2));
                assert(b.valid_sub(pa2));
                assert(b.sub_lines(pa2) == a.sub_lines(pa2));
            }
            assert forall|s: SubRef, i1: int, i2: int|
                b.valid_sub(s) && 0 <= i1 < i2 < b.sub_premises(s).len() implies (
            #[trigger] b.sub_premises(s)[i1]) != (#[trigger] b.sub_premises(s)[i2]) by {
                assert(a.valid_sub(s));
                if s == Self::root() {
                    let m1 = if i1 < ki {
                        i1
                    } else {
                        i1 + 1
                    };
                    let m2 = if i2 < ki {
                        i2
                    } else {
                        i2 + 1
                    };
                    assert(b.sub_premises(s)[i1] == ps0[m1]);
                    assert(b.sub_premises(s)[i2] == ps0[m2]);
                } else {
                    assert(b.sub_premises(s) == a.sub_premises(s));
                }
            }
            assert forall|s: SubRef, i1: int, i2: int|
                b.valid_sub(s) && 0 <= i1 < i2 < b.sub_lines(s).len() implies (
            #[trigger] b.sub_lines(s)[i1]) != (#[trigger] b.sub_lines(s)[i2]) by {
                assert(a.valid_sub(s));
                assert(b.sub_lines(s) == a.sub_lines(s));
            }

    }

    /// Well-formedness is preserved by removing one justification line.
    #[verifier::rlimit(100)]
    proof fn lemma_wf_remove_just(a: ProofTree, b: ProofTree, j: JustRef, pa: SubRef, ki: int)
        requires
            a.wf(),
            a.valid_just(j),
            a.just_parent(j) == pa,
            0 <= ki < a.sub_lines(pa).len(),
            a.sub_lines(pa)[ki] == LineItem::Just(j),
            !b.valid_just(j),
            b.valid_sub(pa),
            b.sub_lines(pa) == a.sub_lines(pa).remove(ki),
            b.sub_premises(pa) == a.sub_premises(pa),
            b.sub_parent(pa) == a.sub_parent(pa),
            Self::prems_agree_except(a, b, Set::empty()),
            Self::justs_agree_except(a, b, set![j]),
            Self::subs_agree_except(a, b, set![pa]),
        ensures
            b.wf(),
    {
        let la = a.sub_lines(pa);
            assert(b.valid_sub(Self::root()));
            assert forall|s: SubRef| #[trigger] b.valid_sub(s) implies b.sub_premises(
                s,
            ).len() >= 1 by {
                assert(a.valid_sub(s));
            }
            assert forall|s: SubRef, i: int|
                b.valid_sub(s) && 0 <= i < b.sub_premises(s).len() implies b.valid_prem(
                    #[trigger] b.sub_premises(s)[i],
                ) && b.prem_parent(b.sub_premises(s)[i]) == s by {
                assert(a.valid_sub(s));
                assert(b.sub_premises(s) == a.sub_premises(s));
                assert(a.valid_prem(a.sub_premises(s)[i]));
                assert(b.valid_prem(b.sub_premises(s)[i]));
            }
            assert forall|s: SubRef, i: int|
                b.valid_sub(s) && 0 <= i < b.sub_lines(s).len() implies match (
            #[trigger] b.sub_lines(s)[i]) {
                LineItem::Just(j2) => b.valid_just(j2) && b.just_parent(j2) == s,
                LineItem::Sub(c) => b.valid_sub(c) && c.idx > s.idx && b.sub_parent(c)
                    == Some(s),
            } by {
                assert(a.valid_sub(s));
                let it = if s == pa {
                    if i < ki {
                        la[i]
                    } else {
                        la[i + 1]
                    }
                } else {
                    a.sub_lines(s)[i]
                };
                assert(b.sub_lines(s)[i] == it);
                match it {
                    LineItem::Just(j2) => {
                        assert(a.valid_just(j2));
                        assert(j2 != j || s != pa || false ==> true);
                        if j2 == j {
                            // the removed line was listed once; its
                            // other occurrences cannot exist
                            if s == pa {
                                let m = if i < ki {
                                    i
                                } else {
                                    i + 1
                                };
                                assert(la[m] == LineItem::Just(j));
                                assert(la[ki] == LineItem::Just(j));
                                assert(m != ki);
                                assert(false);
                            } else {
                                assert(a.just_parent(j) == pa);
                                assert(false);
                            }
                        }
                        assert(b.valid_just(j2));
                    },
                    LineItem::Sub(c) => {
                        assert(b.valid_sub(c));
                    },
                }
            }
            assert forall|s: SubRef|
                b.valid_sub(s) && s.idx != 0 implies ((#[trigger] b.sub_parent(
                s,
            )) matches Some(q) && q.idx < s.idx && b.valid_sub(q) && b.sub_lines(
                q,
            ).contains(LineItem::Sub(s))) by {
                assert(a.valid_sub(s));
                let q = a.sub_parent(s)->Some_0;
                assert(a.valid_sub(q));
                assert(b.valid_sub(q));
                let m = choose|m: int|
                    0 <= m < a.sub_lines(q).len() && a.sub_lines(q)[m] == LineItem::Sub(s);
                if q == pa {
                    assert(m != ki);
                    if m < ki {
                        assert(b.sub_lines(q)[m] == LineItem::Sub(s));
                    } else {
                        assert(b.sub_lines(q)[m - 1] == LineItem::Sub(s));
                    }
                } else {
                    assert(b.sub_lines(q) == a.sub_lines(q));
                }
            }
            assert forall|q: PremRef| #[trigger] b.valid_prem(q) implies b.valid_sub(
                b.prem_parent(q),
            ) && b.sub_premises(b.prem_parent(q)).contains(q) by {
                assert(a.valid_prem(q));
                let pa2 = a.prem_parent(q);
                assert(a.valid_sub(pa2));
                assert(b.valid_sub(pa2));
                assert(b.sub_premises(pa2) == a.sub_premises(pa2));
            }
            assert forall|j2: JustRef| #[trigger] b.valid_just(j2) implies b.valid_sub(
                b.just_parent(j2),
            ) && b.sub_lines(b.just_parent(j2)).contains(LineItem::Just(j2)) by {
                assert(a.valid_just(j2));
                assert(j2 != j);
                let pa2 = a.just_parent(j2);
                assert(a.valid_sub(pa2));
                assert(b.valid_sub(pa2));
                let m = choose|m: int|
                    0 <= m < a.sub_lines(pa2).len() && a.sub_lines(pa2)[m]
                        == LineItem::Just(j2);
                if pa2 == pa {
                    assert(m != ki);
                    if m < ki {
                        assert(b.sub_lines(pa2)[m] == LineItem::Just(j2));
                    } else {
                        assert(b.sub_lines(pa2)[m - 1] == LineItem::Just(j2));
                    }
                } else {
                    assert(b.sub_lines(pa2) == a.sub_lines(pa2));
                }
            }
            assert forall|s: SubRef, i1: int, i2: int|
                b.valid_sub(s) && 0 <= i1 < i2 < b.sub_premises(s).len() implies (
            #[trigger] b.sub_premises(s)[i1]) != (#[trigger] b.sub_premises(s)[i2]) by {
                assert(a.valid_sub(s));
                assert(b.sub_premises(s) == a.sub_premises(s));
            }
            assert forall|s: SubRef, i1: int, i2: int|
                b.valid_sub(s) && 0 <= i1 < i2 < b.sub_lines(s).len() implies (
            #[trigger] b.sub_lines(s)[i1]) != (#[trigger] b.sub_lines(s)[i2]) by {
                assert(a.valid_sub(s));
                if s == pa {
                    let m1 = if i1 < ki {
                        i1
                    } else {
                        i1 + 1
                    };
                    let m2 = if i2 < ki {
                        i2
                    } else {
                        i2 + 1
                    };
                    assert(b.sub_lines(s)[i1] == la[m1]);
                    assert(b.sub_lines(s)[i2] == la[m2]);
                } else {
                    assert(b.sub_lines(s) == a.sub_lines(s));
                }
            }

    }

    /// Whether the ancestor chain starting at `t` passes through `s`:
    /// `t` is `s` itself or sits somewhere inside it.
    /// The arena index behind a subproof reference.
    pub closed spec fn sub_index(t: SubRef) -> int {
        t.idx as int
    }

    /// The size of the subproof arena.
    pub closed spec fn sub_count(self) -> int {
        self.subs@.len() as int
    }

    /// Whether the ancestor chain starting at `t` passes through `s`:
    /// `t` is `s` itself or sits somewhere inside it.
    pub closed spec fn reaches(self, t: SubRef, s: SubRef) -> bool
        decreases Self::sub_index(t),
    {
        if t == s {
            true
        } else if self.valid_sub(t) {
            match self.sub_parent(t) {
                Some(p) => if p.idx < t.idx {
                    self.reaches(p, s)
                } else {
                    false
                },
                None => false,
            }
        } else {
            false
        }
    }

    /// Inside a well-formed document a subproof only reaches subproofs
    /// of smaller or equal index.
    proof fn lemma_reaches_le(self, t: SubRef, s: SubRef)
        requires
            self.reaches(t, s),
        ensures
            s.idx <= t.idx,
        decreases t.idx,
    {
        if t != s {
            self.lemma_reaches_le(self.sub_parent(t)->Some_0, s);
        }
    }

    /// Well-formedness is preserved by the cascading removal of the
    /// subproof `s` and everything inside it.
    #[verifier::rlimit(100)]
    proof fn lemma_wf_cascade(a: ProofTree, b: ProofTree, s: SubRef, pa: SubRef, ki: int)
        requires
            a.wf(),
            a.valid_sub(s),
            s != Self::root(),
            a.sub_parent(s) == Some(pa),
            0 <= ki < a.sub_lines(pa).len(),
            a.sub_lines(pa)[ki] == LineItem::Sub(s),
            !a.reaches(pa, s),
            forall|t: SubRef|
                #[trigger] b.valid_sub(t) == (a.valid_sub(t) && !a.reaches(t, s)),
            forall|t: SubRef|
                #[trigger] b.valid_sub(t) ==> b.sub_parent(t) == a.sub_parent(t)
                    && b.sub_premises(t) == a.sub_premises(t) && (t != pa ==> b.sub_lines(t)
                    == a.sub_lines(t)),
            b.sub_lines(pa) == a.sub_lines(pa).remove(ki),
            forall|p: PremRef|
                #[trigger] b.valid_prem(p) == (a.valid_prem(p) && !a.reaches(a.prem_parent(p), s)),
            forall|p: PremRef|
                #[trigger] b.valid_prem(p) ==> b.prem_expr(p) == a.prem_expr(p) && b.prem_parent(p)
                    == a.prem_parent(p),
            forall|j: JustRef|
                #[trigger] b.valid_just(j) == (a.valid_just(j) && !a.reaches(a.just_parent(j), s)),
            forall|j: JustRef|
                #[trigger] b.valid_just(j) ==> b.just_expr(j) == a.just_expr(j) && b.just_rule(j)
                    == a.just_rule(j) && b.just_line_deps(j) == a.just_line_deps(j)
                    && b.just_sub_deps(j) == a.just_sub_deps(j) && b.just_parent(j)
                    == a.just_parent(j),
        ensures
            b.wf(),
    {
        let la = a.sub_lines(pa);
        assert(!a.reaches(Self::root(), s));
        assert(b.valid_sub(Self::root()));
        assert forall|t: SubRef| #[trigger] b.valid_sub(t) implies b.sub_premises(t).len()
            >= 1 by {
            assert(a.valid_sub(t));
        }
        assert forall|t: SubRef, i: int|
            b.valid_sub(t) && 0 <= i < b.sub_premises(t).len() implies b.valid_prem(
                #[trigger] b.sub_premises(t)[i],
            ) && b.prem_parent(b.sub_premises(t)[i]) == t by {
            assert(a.valid_sub(t));
            let p = a.sub_premises(t)[i];
            assert(a.valid_prem(p));
            assert(a.prem_parent(p) == t);
            assert(b.valid_prem(p));
        }
        assert forall|t: SubRef, i: int|
            b.valid_sub(t) && 0 <= i < b.sub_lines(t).len() implies match (
        #[trigger] b.sub_lines(t)[i]) {
            LineItem::Just(j2) => b.valid_just(j2) && b.just_parent(j2) == t,
            LineItem::Sub(c) => b.valid_sub(c) && c.idx > t.idx && b.sub_parent(c) == Some(t),
        } by {
            assert(a.valid_sub(t));
            let it = if t == pa {
                if i < ki {
                    la[i]
                } else {
                    la[i + 1]
                }
            } else {
                a.sub_lines(t)[i]
            };
            assert(b.sub_lines(t)[i] == it);
            match it {
                LineItem::Just(j2) => {
                    assert(a.valid_just(j2));
                    assert(a.just_parent(j2) == t);
                    assert(b.valid_just(j2));
                },
                LineItem::Sub(c) => {
                    assert(a.valid_sub(c));
                    assert(a.sub_parent(c) == Some(t));
                    if c == s {
                        if t == pa {
                            let m = if i < ki {
                                i
                            } else {
                                i + 1
                            };
                            assert(la[m] == LineItem::Sub(s));
                            assert(la[ki] == LineItem::Sub(s));
                            assert(m != ki);
                            assert(false);
                        } else {
                            assert(a.sub_parent(s) == Some(t));
                            assert(false);
                        }
                    }
                    assert(!a.reaches(c, s)) by {
                        assert(a.reaches(c, s) ==> a.reaches(t, s));
                    }
                    assert(b.valid_sub(c));
                },
            }
        }
        assert forall|t: SubRef|
            b.valid_sub(t) && t.idx != 0 implies ((#[trigger] b.sub_parent(
            t,
        )) matches Some(q) && q.idx < t.idx && b.valid_sub(q) && b.sub_lines(q).contains(
            LineItem::Sub(t),
        )) by {
            assert(a.valid_sub(t));
            let q = a.sub_parent(t)->Some_0;
            assert(a.valid_sub(q));
            assert(t != s);
            assert(!a.reaches(t, s));
            assert(!a.reaches(q, s));
            assert(b.valid_sub(q));
            let m = choose|m: int|
                0 <= m < a.sub_lines(q).len() && a.sub_lines(q)[m] == LineItem::Sub(t);
            if q == pa {
                assert(m != ki);
                if m < ki {
                    assert(b.sub_lines(q)[m] == LineItem::Sub(t));
                } else {
                    assert(b.sub_lines(q)[m - 1] == LineItem::Sub(t));
                }
            } else {
                assert(b.sub_lines(q) == a.sub_lines(q));
            }
        }
        assert forall|p: PremRef| #[trigger] b.valid_prem(p) implies b.valid_sub(b.prem_parent(p))
            && b.sub_premises(b.prem_parent(p)).contains(p) by {
            assert(a.valid_prem(p));
            let t = a.prem_parent(p);
            assert(a.valid_sub(t));
            assert(!a.reaches(t, s));
            assert(b.valid_sub(t));
            assert(b.sub_premises(t) == a.sub_premises(t));
        }
        assert forall|j2: JustRef| #[trigger] b.valid_just(j2) implies b.valid_sub(
            b.just_parent(j2),
        ) && b.sub_lines(b.just_parent(j2)).contains(LineItem::Just(j2)) by {
            assert(a.valid_just(j2));
            let t = a.just_parent(j2);
            assert(a.valid_sub(t));
            assert(!a.reaches(t, s));
            assert(b.valid_sub(t));
            let m = choose|m: int|
                0 <= m < a.sub_lines(t).len() && a.sub_lines(t)[m] == LineItem::Just(j2);
            if t == pa {
                assert(m != ki);
                if m < ki {
                    assert(b.sub_lines(t)[m] == LineItem::Just(j2));
                } else {
                    assert(b.sub_lines(t)[m - 1] == LineItem::Just(j2));
                }
            } else {
                assert(b.sub_lines(t) == a.sub_lines(t));
            }
        }
        assert forall|t: SubRef, i1: int, i2: int|
            b.valid_sub(t) && 0 <= i1 < i2 < b.sub_premises(t).len() implies (
        #[trigger] b.sub_premises(t)[i1]) != (#[trigger] b.sub_premises(t)[i2]) by {
            assert(a.valid_sub(t));
        }
        assert forall|t: SubRef, i1: int, i2: int|
            b.valid_sub(t) && 0 <= i1 < i2 < b.sub_lines(t).len() implies (
        #[trigger] b.sub_lines(t)[i1]) != (#[trigger] b.sub_lines(t)[i2]) by {
            assert(a.valid_sub(t));
            if t == pa {
                let m1 = if i1 < ki {
                    i1
                } else {
                    i1 + 1
                };
                let m2 = if i2 < ki {
                    i2
                } else {
                    i2 + 1
                };
                assert(b.sub_lines(t)[i1] == la[m1]);
                assert(b.sub_lines(t)[i2] == la[m2]);
            } else {
                assert(b.sub_lines(t) == a.sub_lines(t));
            }
        }
    }

    /// Whether the ancestor chain of slot `t` passes through `s`,
    /// reading the current parent pointers (executable form of
    /// `reaches`).
    fn doomed(&self, t: usize, s: SubRef) -> (r: bool)
        requires
            t < self.subs@.len(),
        ensures
            r == self.reaches(SubRef { idx: t }, s),
        decreases t,
    {
        if t == s.idx {
            return true;
        }
        match &self.subs[t] {
            Some(n) => match n.parent {
                Some(p) => {
                    if p.idx < t {
                        self.doomed(p.idx, s)
                    } else {
                        false
                    }
                },
                None => false,
            },
            None => false,
        }
    }

    /// `reaches` depends only on subproof liveness and parents.
    proof fn lemma_reaches_same(self, other: ProofTree, t: SubRef, u: SubRef)
        requires
            forall|tt: SubRef|
                #[trigger] self.valid_sub(tt) == other.valid_sub(tt) && (other.valid_sub(tt)
                    ==> self.sub_parent(tt) == other.sub_parent(tt)),
        ensures
            self.reaches(t, u) == other.reaches(t, u),
        decreases t.idx,
    {
        if t != u {
            assert(self.valid_sub(t) == other.valid_sub(t));
            if self.valid_sub(t) {
                match self.sub_parent(t) {
                    Some(p) => {
                        if p.idx < t.idx {
                            self.lemma_reaches_same(other, p, u);
                        }
                    },
                    None => (),
                }
            }
        }
    }

    /// Remove a subproof and everything nested inside it: every
    /// premise, justification and subproof whose ancestor chain passes
    /// through it loses its slot, and the subproof leaves its parent's
    /// line list. The root cannot be removed; `false`, with the
    /// document unchanged, when `s` is the root or dangling.
    #[verifier::rlimit(100)]
    pub fn remove_subproof(&mut self, s: SubRef) -> (res: bool)
        requires
            old(self).wf(),
        ensures
            final(self).wf(),
            res == (old(self).valid_sub(s) && s != Self::root()),
            !res ==> *final(self) == *old(self),
            res ==> {
                &&& forall|t: SubRef|
                    #[trigger] final(self).valid_sub(t) == (old(self).valid_sub(t) && !old(self).reaches(t, s))
                &&& forall|p: PremRef|
                    #[trigger] final(self).valid_prem(p) == (old(self).valid_prem(p) && !old(self).reaches(old(self).prem_parent(p), s))
                &&& forall|j: JustRef|
                    #[trigger] final(self).valid_just(j) == (old(self).valid_just(j) && !old(self).reaches(old(self).just_parent(j), s))
                &&& forall|p: PremRef|
                    #[trigger] final(self).valid_prem(p) ==> final(self).prem_expr(p) == old(self).prem_expr(p) && final(self).prem_parent(p) == old(self).prem_parent(p)
                &&& forall|j: JustRef|
                    #[trigger] final(self).valid_just(j) ==> final(self).just_expr(j) == old(self).just_expr(j) && final(self).just_rule(j) == old(self).just_rule(j) && final(self).just_line_deps(j) == old(self).just_line_deps(j) && final(self).just_sub_deps(j) == old(self).just_sub_deps(j) && final(self).just_parent(j)
                        == old(self).just_parent(j)
                &&& forall|t: SubRef|
                    #[trigger] final(self).valid_sub(t) ==> final(self).sub_parent(t) == old(self).sub_parent(t) && final(self).sub_premises(t) == old(self).sub_premises(t)
                        && (t != old(self).sub_parent(s)->Some_0 ==> final(self).sub_lines(t)
                        == old(self).sub_lines(t))
                &&& {
                    let pa = old(self).sub_parent(s)->Some_0;
                    let la = old(self).sub_lines(pa);
                    exists|k: int|
                        #![trigger la[k]]
                        {
                            &&& 0 <= k < la.len()
                            &&& la[k] == LineItem::Sub(s)
                            &&& final(self).sub_lines(pa) == la.remove(k)
                        }
                }
            },
    {
        if s.idx == 0 || s.idx >= self.subs.len() {
            return false;
        }
        let pa = match &self.subs[s.idx] {
            Some(n) => match n.parent {
                Some(p) => p,
                None => {
                    proof {
                        assert(old(self).valid_sub(s));
                        assert(false);
                    }
                    return false;
                },
            },
            None => {
                return false;
            },
        };
        proof {
            assert(old(self).valid_sub(s));
            assert(old(self).reaches(s, s));
            if old(self).reaches(pa, s) {
                old(self).lemma_reaches_le(pa, s);
                assert(false);
            }
        }
        let ghost la = old(self).sub_lines(pa);
        let k = self.find_line_pos(pa, LineItem::Sub(s));
        self.subs[pa.idx].as_mut().unwrap().lines.remove(k);
        let ghost mid = *self;
        proof {
            assert forall|tt: SubRef|
                #[trigger] mid.valid_sub(tt) == old(self).valid_sub(tt) && (old(self).valid_sub(tt)
                    ==> mid.sub_parent(tt) == old(self).sub_parent(tt)) by {}
        }
        // mark every subproof inside `s`
        let n = self.subs.len();
        let mut dead: Vec<bool> = Vec::new();
        let mut t: usize = 0;
        #[verifier::loop_isolation(false)]
        while t < n
            invariant
                0 <= t <= n,
                *self == mid,
                n == self.subs@.len(),
                dead@.len() == t,
                forall|m: int|
                    0 <= m < t ==> #[trigger] dead@[m] == old(self).reaches(
                        SubRef { idx: m as usize },
                        s,
                    ),
            decreases n - t,
        {
            let d = self.doomed(t, s);
            proof {
                mid.lemma_reaches_same(*old(self), SubRef { idx: t }, s);
            }
            dead.push(d);
            t += 1;
        }
        // clear the premises of doomed subproofs
        let mut i: usize = 0;
        #[verifier::loop_isolation(false)]
        while i < self.prems.len()
            invariant
                0 <= i <= self.prems@.len(),
                self.prems@.len() == mid.prems@.len(),
                self.justs@ == mid.justs@,
                self.subs@ == mid.subs@,
                dead@.len() == n,
                n == self.subs@.len(),
                forall|m: int|
                    0 <= m < n ==> #[trigger] dead@[m] == old(self).reaches(
                        SubRef { idx: m as usize },
                        s,
                    ),
                forall|m: int| i <= m < self.prems@.len() ==> self.prems@[m] == mid.prems@[m],
                forall|m: int|
                    0 <= m < i ==> self.prems@[m] == (match mid.prems@[m] {
                        Some(nd) => if old(self).reaches(nd.parent, s) {
                            None
                        } else {
                            mid.prems@[m]
                        },
                        None => None,
                    }),
            decreases self.prems@.len() - i,
        {
            let clear = match &self.prems[i] {
                Some(nd) => nd.parent.idx < n && dead[nd.parent.idx],
                None => false,
            };
            proof {
                match mid.prems@[i as int] {
                    Some(nd) => {
                        if old(self).valid_prem(PremRef { idx: i }) {
                            assert(old(self).valid_sub(nd.parent));
                            assert(nd.parent.idx < n);
                        } else {
                        }
                        if nd.parent.idx >= n {
                            assert(!old(self).reaches(nd.parent, s)) by {
                                old(self).lemma_reaches_le(nd.parent, s);
                                if old(self).reaches(nd.parent, s) && nd.parent != s {
                                    assert(old(self).valid_sub(nd.parent));
                                }
                            }
                        }
                    },
                    None => (),
                }
            }
            if clear {
                self.prems[i] = None;
            }
            i += 1;
        }
        // clear the justifications of doomed subproofs
        let ghost prems_cleared = self.prems@;
        let mut i2: usize = 0;
        #[verifier::loop_isolation(false)]
        while i2 < self.justs.len()
            invariant
                0 <= i2 <= self.justs@.len(),
                self.justs@.len() == mid.justs@.len(),
                self.prems@ == prems_cleared,
                self.subs@ == mid.subs@,
                dead@.len() == n,
                n == self.subs@.len(),
                forall|m: int|
                    0 <= m < n ==> #[trigger] dead@[m] == old(self).reaches(
                        SubRef { idx: m as usize },
                        s,
                    ),
                forall|m: int| i2 <= m < self.justs@.len() ==> self.justs@[m] == mid.justs@[m],
                forall|m: int|
                    0 <= m < i2 ==> self.justs@[m] == (match mid.justs@[m] {
                        Some(nd) => if old(self).reaches(nd.parent, s) {
                            None
                        } else {
                            mid.justs@[m]
                        },
                        None => None,
                    }),
            decreases self.justs@.len() - i2,
        {
            let clear = match &self.justs[i2] {
                Some(nd) => nd.parent.idx < n && dead[nd.parent.idx],
                None => false,
            };
            proof {
                match mid.justs@[i2 as int] {
                    Some(nd) => {
                        if old(self).valid_just(JustRef { idx: i2 }) {
                            assert(old(self).valid_sub(nd.parent));
                            assert(nd.parent.idx < n);
                        }
                        if nd.parent.idx >= n {
                            assert(!old(self).reaches(nd.parent, s)) by {
                                if old(self).reaches(nd.parent, s) && nd.parent != s {
                                    assert(old(self).valid_sub(nd.parent));
                                }
                            }
                        }
                    },
                    None => (),
                }
            }
            if clear {
                self.justs[i2] = None;
            }
            i2 += 1;
        }
        // clear the doomed subproof slots themselves
        let ghost justs_cleared = self.justs@;
        let mut i3: usize = 0;
        #[verifier::loop_isolation(false)]
        while i3 < n
            invariant
                0 <= i3 <= n,
                self.subs@.len() == n,
                self.prems@ == prems_cleared,
                self.justs@ == justs_cleared,
                dead@.len() == n,
                forall|m: int|
                    0 <= m < n ==> #[trigger] dead@[m] == old(self).reaches(
                        SubRef { idx: m as usize },
                        s,
                    ),
                forall|m: int| i3 <= m < n ==> self.subs@[m] == mid.subs@[m],
                forall|m: int|
                    0 <= m < i3 ==> self.subs@[m] == (if old(self).reaches(
                        SubRef { idx: m as usize },
                        s,
                    ) {
                        None
                    } else {
                        mid.subs@[m]
                    }),
            decreases n - i3,
        {
            if dead[i3] {
                self.subs[i3] = None;
            }
            i3 += 1;
        }
        proof {
            let a = *old(self);
            let b = *self;
            assert forall|t2: SubRef|
                #[trigger] b.valid_sub(t2) == (a.valid_sub(t2) && !a.reaches(t2, s)) by {
                if t2.idx < n {
                    if a.reaches(t2, s) && !a.valid_sub(t2) && t2 != s {
                        assert(false);
                    }
                }
            }
            assert forall|p: PremRef|
                #[trigger] b.valid_prem(p) == (a.valid_prem(p) && !a.reaches(
                    a.prem_parent(p),
                    s,
                )) by {}
            assert forall|j: JustRef|
                #[trigger] b.valid_just(j) == (a.valid_just(j) && !a.reaches(
                    a.just_parent(j),
                    s,
                )) by {}
            assert(b.sub_lines(pa) == la.remove(k as int));
            assert(la[k as int] == LineItem::Sub(s));
            assert forall|t2: SubRef| b.valid_sub(t2) implies #[trigger] b.sub_parent(t2)
                == a.sub_parent(t2) && b.sub_premises(t2) == a.sub_premises(t2) && (t2 != pa
                ==> b.sub_lines(t2) == a.sub_lines(t2)) by {
                assert(a.valid_sub(t2));
            }
            Self::lemma_wf_cascade(a, b, s, pa, k as int);
        }
        true
    }

    /// Whether a line may be removed: a justification always; a premise
    /// only at the top level and only while another top-level premise
    /// remains; a subproof's own premises are structural and never
    /// individually removable.
    pub open spec fn may_remove_spec(self, r: PjRef) -> bool {
        match r {
            PjRef::Prem(p) => self.valid_prem(p) && self.prem_parent(p) == Self::root()
                && self.sub_premises(Self::root()).len() > 1,
            PjRef::Just(j) => self.valid_just(j),
        }
    }

    /// Whether `remove_line` would remove the line (executable form of
    /// `may_remove_spec`).
    pub fn may_remove_line(&self, r: PjRef) -> (res: bool)
        requires
            self.wf(),
        ensures
            res == self.may_remove_spec(r),
    {
        match r {
            PjRef::Prem(p) => {
                if p.idx >= self.prems.len() {
                    return false;
                }
                match &self.prems[p.idx] {
                    Some(n) => n.parent.idx == 0 && self.subs[0].as_ref().unwrap().premises.len()
                        > 1,
                    None => false,
                }
            },
            PjRef::Just(j) => j.idx < self.justs.len() && self.justs[j.idx].is_some(),
        }
    }

    /// Remove a line. A removal that `may_remove_spec` forbids is
    /// refused silently: the document is unchanged and `false` comes
    /// back. On success the line's slot is cleared — its reference
    /// resolves to nothing from now on — it leaves its subproof's list,
    /// and no other line is touched.
    pub fn remove_line(&mut self, r: PjRef) -> (res: bool)
        requires
            old(self).wf(),
        ensures
            final(self).wf(),
            res == old(self).may_remove_spec(r),
            !res ==> *final(self) == *old(self),
            res ==> match r {
                PjRef::Prem(p) => {
                    &&& !final(self).valid_prem(p)
                    &&& exists|k: int|
                        #![trigger old(self).sub_premises(Self::root())[k]]
                        {
                            let ps = old(self).sub_premises(Self::root());
                            &&& 0 <= k < ps.len()
                            &&& ps[k] == p
                            &&& final(self).sub_premises(Self::root()) == ps.remove(k)
                        }
                    &&& final(self).sub_lines(Self::root()) == old(self).sub_lines(Self::root())
                    &&& Self::agree_except(
                        *old(self),
                        *final(self),
                        set![p],
                        Set::empty(),
                        set![Self::root()],
                    )
                },
                PjRef::Just(j) => {
                    &&& !final(self).valid_just(j)
                    &&& {
                        let pa = old(self).just_parent(j);
                        let la = old(self).sub_lines(pa);
                        &&& exists|k: int|
                            {
                                &&& 0 <= k < la.len()
                                &&& la[k] == LineItem::Just(j)
                                &&& final(self).sub_lines(pa) == la.remove(k)
                            }
                        &&& final(self).sub_premises(pa) == old(self).sub_premises(pa)
                        &&& Self::agree_except(
                            *old(self),
                            *final(self),
                            Set::empty(),
                            set![j],
                            set![pa],
                        )
                    }
                },
            },
    {
        match r {
            PjRef::Prem(p) => {
                if p.idx >= self.prems.len() {
                    return false;
                }
                let parent = match &self.prems[p.idx] {
                    Some(n) => n.parent,
                    None => {
                        return false;
                    },
                };
                if parent.idx != 0 {
                    return false;
                }
                if self.subs[0].as_ref().unwrap().premises.len() <= 1 {
                    return false;
                }
                let ghost ps0 = old(self).sub_premises(Self::root());
                proof {
                    assert(old(self).valid_prem(p));
                    assert(old(self).prem_parent(p) == Self::root());
                    assert(old(self).sub_premises(Self::root()).contains(p));
                }
                let mut k: usize = 0;
                let mut found: bool = false;
                #[verifier::loop_isolation(false)]
                while !found && k < self.subs[0].as_ref().unwrap().premises.len()
                    invariant
                        0 <= k <= ps0.len(),
                        !found ==> forall|m: int| 0 <= m < k ==> ps0[m] != p,
                        found ==> 0 <= k < ps0.len() && ps0[k as int] == p,
                    decreases ps0.len() - k + (if found { 0int } else { 1int }),
                {
                    if self.subs[0].as_ref().unwrap().premises[k].idx == p.idx {
                        found = true;
                    } else {
                        k += 1;
                    }
                }
                proof {
                    if !found {
                        let m = choose|m: int| 0 <= m < ps0.len() && ps0[m] == p;
                        assert(false);
                    }
                }
                self.subs[0].as_mut().unwrap().premises.remove(k);
                self.prems[p.idx] = None;
                proof {
                    let a = *old(self);
                    let b = *self;
                    let ki = k as int;
                    assert(b.sub_premises(Self::root()) == ps0.remove(ki));
                    assert(Self::prems_agree_except(a, b, set![p]));
                    assert(Self::justs_agree_except(a, b, Set::empty()));
                    assert(Self::subs_agree_except(a, b, set![Self::root()]));
                    assert(b.sub_lines(Self::root()) == a.sub_lines(Self::root()));
                    assert(b.sub_parent(Self::root()) == a.sub_parent(Self::root()));
                    assert(b.valid_sub(Self::root()));
                    Self::lemma_wf_remove_prem(a, b, p, ki);
                }
                true
            },
            PjRef::Just(j) => {
                if j.idx >= self.justs.len() {
                    return false;
                }
                let pa = match &self.justs[j.idx] {
                    Some(n) => n.parent,
                    None => {
                        return false;
                    },
                };
                let ghost la = old(self).sub_lines(pa);
                proof {
                    assert(old(self).valid_just(j));
                }
                let k = self.find_line_pos(pa, LineItem::Just(j));
                self.subs[pa.idx].as_mut().unwrap().lines.remove(k);
                self.justs[j.idx] = None;
                proof {
                    let a = *old(self);
                    let b = *self;
                    let ki = k as int;
                    assert(b.sub_lines(pa) == la.remove(ki));
                    assert(Self::prems_agree_except(a, b, Set::empty()));
                    assert(Self::justs_agree_except(a, b, set![j]));
                    assert(Self::subs_agree_except(a, b, set![pa]));
                    assert(b.sub_premises(pa) == a.sub_premises(pa));
                    assert(b.sub_parent(pa) == a.sub_parent(pa));
                    assert(b.valid_sub(pa));
                    Self::lemma_wf_remove_just(a, b, j, pa, ki);
                }
                true
            },
        }
    }

    /// The root subproof's reference.
    pub fn root_ref(&self) -> (r: SubRef)
        ensures
            r == Self::root(),
    {
        SubRef { idx: 0 }
    }

    /// The ordered premise references of a subproof.
    pub fn premises_of(&self, s: SubRef) -> (r: Option<Vec<PremRef>>)
        ensures
            match r {
                Some(v) => self.valid_sub(s) && v@ == self.sub_premises(s),
                None => !self.valid_sub(s),
            },
    {
        if s.idx >= self.subs.len() {
            return None;
        }
        match &self.subs[s.idx] {
            Some(n) => {
                let mut out: Vec<PremRef> = Vec::new();
                let mut i: usize = 0;
                #[verifier::loop_isolation(false)]
                while i < n.premises.len()
                    invariant
                        0 <= i <= n.premises@.len(),
                        out@ == n.premises@.subrange(0, i as int),
                    decreases n.premises@.len() - i,
                {
                    out.push(n.premises[i]);
                    proof {
                        assert(out@ =~= n.premises@.subrange(0, i + 1));
                    }
                    i += 1;
                }
                proof {
                    assert(n.premises@.subrange(0, n.premises@.len() as int) =~= n.premises@);
                }
                Some(out)
            },
            None => None,
        }
    }

    /// The ordered line items of a subproof.
    pub fn lines_of(&self, s: SubRef) -> (r: Option<Vec<LineItem>>)
        ensures
            match r {
                Some(v) => self.valid_sub(s) && v@ == self.sub_lines(s),
                None => !self.valid_sub(s),
            },
    {
        if s.idx >= self.subs.len() {
            return None;
        }
        match &self.subs[s.idx] {
            Some(n) => {
                let mut out: Vec<LineItem> = Vec::new();
                let mut i: usize = 0;
                #[verifier::loop_isolation(false)]
                while i < n.lines.len()
                    invariant
                        0 <= i <= n.lines@.len(),
                        out@ == n.lines@.subrange(0, i as int),
                    decreases n.lines@.len() - i,
                {
                    out.push(n.lines[i]);
                    proof {
                        assert(out@ =~= n.lines@.subrange(0, i + 1));
                    }
                    i += 1;
                }
                proof {
                    assert(n.lines@.subrange(0, n.lines@.len() as int) =~= n.lines@);
                }
                Some(out)
            },
            None => None,
        }
    }

    /// The document-order listing of a subproof at nesting depth
    /// `depth`: its premises first, then its lines, with the lines of a
    /// nested subproof inlined one level deeper.
    pub open spec fn doc_order_sub(self, s: SubRef, depth: usize) -> Seq<(PjRef, usize)>
        decreases self.sub_count() - Self::sub_index(s), 1int,
    {
        Seq::new(
            self.sub_premises(s).len(),
            |i: int|
                if 0 <= i < self.sub_premises(s).len() {
                    (PjRef::Prem(self.sub_premises(s)[i]), depth)
                } else {
                    (PjRef::Prem(self.sub_premises(s)[0]), depth)
                },
        ) + self.doc_order_items(s, self.sub_lines(s), depth)
    }

    /// The document-order listing of a line list of the subproof `s`.
    pub open spec fn doc_order_items(
        self,
        s: SubRef,
        items: Seq<LineItem>,
        depth: usize,
    ) -> Seq<(PjRef, usize)>
        decreases self.sub_count() - Self::sub_index(s), 0int, items.len(),
    {
        if items.len() == 0 {
            Seq::empty()
        } else {
            (match items[0] {
                LineItem::Just(j) => seq![(PjRef::Just(j), depth)],
                LineItem::Sub(c) => if Self::sub_index(s) < Self::sub_index(c)
                    < self.sub_count() {
                    self.doc_order_sub(c, ((depth as int + 1) as usize))
                } else {
                    Seq::empty()
                },
            }) + self.doc_order_items(s, items.drop_first(), depth)
        }
    }

    /// Splitting a line list before its last item splits its
    /// document-order listing.
    proof fn lemma_doc_items_snoc(self, s: SubRef, items: Seq<LineItem>, depth: usize)
        requires
            items.len() > 0,
        ensures
            self.doc_order_items(s, items, depth) == self.doc_order_items(
                s,
                items.drop_last(),
                depth,
            ) + self.doc_order_items(s, seq![items.last()], depth),
        decreases items.len(),
    {
        if items.len() == 1 {
            assert(items.drop_last() =~= Seq::<LineItem>::empty());
            assert(seq![items.last()] =~= items);
            assert(self.doc_order_items(s, items.drop_last(), depth)
                =~= Seq::<(PjRef, usize)>::empty());
            assert(self.doc_order_items(s, items, depth) == self.doc_order_items(
                s,
                items.drop_last(),
                depth,
            ) + self.doc_order_items(s, seq![items.last()], depth)) by {
                assert(self.doc_order_items(s, items.drop_last(), depth) + self.doc_order_items(
                    s,
                    seq![items.last()],
                    depth,
                ) =~= self.doc_order_items(s, seq![items.last()], depth));
            }
        } else {
            let tail = items.drop_first();
            assert(tail.len() > 0);
            self.lemma_doc_items_snoc(s, tail, depth);
            assert(items.drop_last()[0] == items[0]);
            assert(items.drop_last().drop_first() =~= tail.drop_last());
            assert(tail.last() == items.last());
            let head_part = match items[0] {
                LineItem::Just(j) => seq![(PjRef::Just(j), depth)],
                LineItem::Sub(c) => if Self::sub_index(s) < Self::sub_index(c)
                    < self.sub_count() {
                    self.doc_order_sub(c, ((depth as int + 1) as usize))
                } else {
                    Seq::<(PjRef, usize)>::empty()
                },
            };
            assert(self.doc_order_items(s, items, depth) == head_part + self.doc_order_items(
                s,
                tail,
                depth,
            ));
            assert(self.doc_order_items(s, items.drop_last(), depth) == head_part
                + self.doc_order_items(s, tail.drop_last(), depth));
            assert((head_part + (self.doc_order_items(s, tail.drop_last(), depth)
                + self.doc_order_items(s, seq![items.last()], depth))) =~= ((head_part
                + self.doc_order_items(s, tail.drop_last(), depth)) + self.doc_order_items(
                s,
                seq![items.last()],
                depth,
            )));
        }
    }

    /// Enumerate a subproof in document order with nesting depth
    /// (executable form of `doc_order_sub`).
    pub fn lines_in_order_from(&self, s: SubRef, depth: usize) -> (r: Vec<(PjRef, usize)>)
        requires
            self.wf(),
            self.valid_sub(s),
            depth <= Self::sub_index(s),
        ensures
            r@ == self.doc_order_sub(s, depth),
        decreases self.sub_count() - Self::sub_index(s),
    {
        let ghost target = self.doc_order_sub(s, depth);
        let mut out: Vec<(PjRef, usize)> = Vec::new();
        let prems = match self.premises_of(s) {
            Some(p) => p,
            None => {
                proof {
                    assert(false);
                }
                Vec::new()
            },
        };
        let mut i: usize = 0;
        #[verifier::loop_isolation(false)]
        while i < prems.len()
            invariant
                0 <= i <= prems@.len(),
                prems@ == self.sub_premises(s),
                out@.len() == i,
                forall|m: int|
                    0 <= m < i ==> #[trigger] out@[m] == (PjRef::Prem(prems@[m]), depth),
            decreases prems@.len() - i,
        {
            out.push((PjRef::Prem(prems[i]), depth));
            i += 1;
        }
        let items = match self.lines_of(s) {
            Some(v) => v,
            None => {
                proof {
                    assert(false);
                }
                Vec::new()
            },
        };
        proof {
            assert(items@.subrange(0, 0) =~= Seq::<LineItem>::empty());
            assert(self.doc_order_items(s, items@.subrange(0, 0), depth)
                =~= Seq::<(PjRef, usize)>::empty());
            assert(out@ =~= Seq::new(
                self.sub_premises(s).len(),
                |m: int|
                    if 0 <= m < self.sub_premises(s).len() {
                        (PjRef::Prem(self.sub_premises(s)[m]), depth)
                    } else {
                        (PjRef::Prem(self.sub_premises(s)[0]), depth)
                    },
            ) + self.doc_order_items(s, items@.subrange(0, 0), depth));
        }
        let ghost prem_part = Seq::new(
            self.sub_premises(s).len(),
            |m: int|
                if 0 <= m < self.sub_premises(s).len() {
                    (PjRef::Prem(self.sub_premises(s)[m]), depth)
                } else {
                    (PjRef::Prem(self.sub_premises(s)[0]), depth)
                },
        );
        let mut k: usize = 0;
        #[verifier::loop_isolation(false)]
        while k < items.len()
            invariant
                0 <= k <= items@.len(),
                items@ == self.sub_lines(s),
                depth <= Self::sub_index(s),
                out@ == prem_part + self.doc_order_items(s, items@.subrange(0, k as int), depth),
            decreases items@.len() - k,
        {
            let ghost pre = items@.subrange(0, k as int);
            match items[k] {
                LineItem::Just(j) => {
                    out.push((PjRef::Just(j), depth));
                    proof {
                        assert(self.doc_order_items(s, seq![items@[k as int]], depth)
                            =~= seq![(PjRef::Just(j), depth)]) by {
                            assert(seq![items@[k as int]].drop_first()
                                =~= Seq::<LineItem>::empty());
                        }
                    }
                },
                LineItem::Sub(c) => {
                    proof {
                        assert(self.sub_lines(s)[k as int] == LineItem::Sub(c));
                        assert(self.valid_sub(c) && c.idx > s.idx);
                    }
                    let nested = self.lines_in_order_from(c, depth + 1);
                    let mut m: usize = 0;
                    let ghost out0 = out@;
                    #[verifier::loop_isolation(false)]
                    while m < nested.len()
                        invariant
                            0 <= m <= nested@.len(),
                            out@ == out0 + nested@.subrange(0, m as int),
                        decreases nested@.len() - m,
                    {
                        out.push(nested[m]);
                        proof {
                            assert(out@ =~= out0 + nested@.subrange(0, m + 1));
                        }
                        m += 1;
                    }
                    proof {
                        assert(nested@.subrange(0, nested@.len() as int) =~= nested@);
                        assert(self.doc_order_items(s, seq![items@[k as int]], depth)
                            =~= nested@) by {
                            assert(seq![items@[k as int]].drop_first()
                                =~= Seq::<LineItem>::empty());
                        }
                    }
                },
            }
            proof {
                assert(items@.subrange(0, k + 1).drop_last() =~= pre);
                assert(items@.subrange(0, k + 1).last() == items@[k as int]);
                self.lemma_doc_items_snoc(s, items@.subrange(0, k + 1), depth);
                assert(out@ =~= prem_part + self.doc_order_items(
                    s,
                    items@.subrange(0, k + 1),
                    depth,
                ));
            }
            k += 1;
        }
        proof {
            assert(items@.subrange(0, items@.len() as int) =~= items@);
        }
        out
    }

    /// Enumerate the whole document in order with nesting depth.
    pub fn lines_in_order(&self) -> (r: Vec<(PjRef, usize)>)
        requires
            self.wf(),
        ensures
            r@ == self.doc_order_sub(Self::root(), 0),
    {
        self.lines_in_order_from(self.root_ref(), 0)
    }

    /// The expression of a premise, when the reference is live.
    pub fn lookup_premise(&self, p: PremRef) -> (r: Option<&Expr>)
        ensures
            match r {
                Some(e) => self.valid_prem(p) && e@ == self.prem_expr(p),
                None => !self.valid_prem(p),
            },
    {
        if p.idx >= self.prems.len() {
            return None;
        }
        match &self.prems[p.idx] {
            Some(n) => Some(&n.expr),
            None => None,
        }
    }

    /// The justification of a line, when the reference is live.
    pub fn lookup_justification(&self, j: JustRef) -> (r: Option<&Justification>)
        ensures
            match r {
                Some(just) => self.valid_just(j) && just.expr@ == self.just_expr(j) && just.rule
                    == self.just_rule(j) && just.line_deps@ == self.just_line_deps(j)
                    && just.sub_deps@ == self.just_sub_deps(j),
                None => !self.valid_just(j),
            },
    {
        if j.idx >= self.justs.len() {
            return None;
        }
        match &self.justs[j.idx] {
            Some(n) => Some(&n.just),
            None => None,
        }
    }

    /// The subproof a line belongs to: `None` when the line is dangling
    /// or sits at the top level.
    pub fn parent_of_line(&self, r: PjRef) -> (res: Option<SubRef>)
        ensures
            match res {
                Some(s) => match r {
                    PjRef::Prem(p) => self.valid_prem(p) && self.prem_parent(p) == s && s
                        != Self::root(),
                    PjRef::Just(j) => self.valid_just(j) && self.just_parent(j) == s && s
                        != Self::root(),
                },
                None => match r {
                    PjRef::Prem(p) => !self.valid_prem(p) || self.prem_parent(p) == Self::root(),
                    PjRef::Just(j) => !self.valid_just(j) || self.just_parent(j) == Self::root(),
                },
            },
    {
        let parent = match r {
            PjRef::Prem(p) => {
                if p.idx >= self.prems.len() {
                    return None;
                }
                match &self.prems[p.idx] {
                    Some(n) => n.parent,
                    None => {
                        return None;
                    },
                }
            },
            PjRef::Just(j) => {
                if j.idx >= self.justs.len() {
                    return None;
                }
                match &self.justs[j.idx] {
                    Some(n) => n.parent,
                    None => {
                        return None;
                    },
                }
            },
        };
        if parent.idx == 0 {
            None
        } else {
            Some(parent)
        }
    }
}

/// Why a line fails to verify.
#[derive(Debug, Clone, Copy, PartialEq, Eq, Structural)]
pub enum VerificationError {
    /// The reference resolves to no line.
    LineNotFound,
    /// A cited dependency does not resolve, or is not visible from the
    /// citing line.
    BadDependency,
    /// The cited rule does not license the conclusion from the cited
    /// dependencies.
    WrongRule,
}

/// `a` is listed strictly before `b`.
pub open spec fn listed_before(lines: Seq<LineItem>, a: LineItem, b: LineItem) -> bool {
    exists|i: int, m: int|
        #![trigger lines[i], lines[m]]
        {
            &&& 0 <= i < m < lines.len()
            &&& lines[i] == a
            &&& lines[m] == b
        }
}

impl ProofTree {
    /// Whether `dep` is visible from the position just before the line
    /// item `before` of subproof `s`: a premise of `s` or an ancestor,
    /// or a line or closed subproof listed earlier in `s`, or earlier
    /// than the enclosing chain in an ancestor.
    pub open spec fn visible_from(self, s: SubRef, before: LineItem, dep: DepRef) -> bool
        decreases Self::sub_index(s),
    {
        let here = match dep {
            DepRef::Line(PjRef::Prem(p)) => self.valid_prem(p) && self.prem_parent(p) == s,
            DepRef::Line(PjRef::Just(d)) => listed_before(
                self.sub_lines(s),
                LineItem::Just(d),
                before,
            ),
            DepRef::Sub(c) => listed_before(self.sub_lines(s), LineItem::Sub(c), before),
        };
        here || (if self.valid_sub(s) {
            match self.sub_parent(s) {
                Some(p) => if Self::sub_index(p) < Self::sub_index(s) {
                    self.visible_from(p, LineItem::Sub(s), dep)
                } else {
                    false
                },
                None => false,
            }
        } else {
            false
        })
    }

    /// Whether the justification `j` may cite `dep`: the dependency
    /// resolves and precedes `j` per the scoping discipline.
    pub open spec fn dep_visible(self, j: JustRef, dep: DepRef) -> bool {
        self.valid_just(j) && self.visible_from(self.just_parent(j), LineItem::Just(j), dep)
    }

    /// Scan for whether `a` is listed strictly before `b`, `b` being
    /// listed exactly once.
    fn scan_before(&self, s: SubRef, a: LineItem, b: LineItem) -> (r: bool)
        requires
            self.wf(),
            self.valid_sub(s),
            self.sub_lines(s).contains(b),
        ensures
            r == listed_before(self.sub_lines(s), a, b),
    {
        let ghost la = self.sub_lines(s);
        let node = self.subs[s.idx].as_ref().unwrap();
        let mut seen: bool = false;
        let mut i: usize = 0;
        #[verifier::loop_isolation(false)]
        while i < node.lines.len()
            invariant
                0 <= i <= la.len(),
                node.lines@ == la,
                forall|m: int| 0 <= m < i ==> la[m] != b,
                seen == exists|m: int| 0 <= m < i && la[m] == a,
            decreases la.len() - i,
        {
            if node.lines[i] == b {
                proof {
                    let mb = i as int;
                    if listed_before(la, a, b) {
                        let (x, m) = choose|x: int, m: int|
                            0 <= x < m < la.len() && la[x] == a && la[m] == b;
                        assert(m == mb);
                        assert(seen);
                    }
                    if seen {
                        let x = choose|m: int| 0 <= m < i && la[m] == a;
                        assert(la[x] == a && la[mb] == b && x < mb);
                    }
                }
                return seen;
            }
            if node.lines[i] == a {
                seen = true;
                proof {
                    assert(la[i as int] == a);
                }
            }
            i += 1;
        }
        proof {
            let m = choose|m: int| 0 <= m < la.len() && la[m] == b;
            assert(false);
        }
        false
    }

    /// Whether the line `line` may cite `dep` (executable form of
    /// `dep_visible`; a premise cites nothing).
    pub fn can_reference_dep(&self, line: PjRef, dep: DepRef) -> (r: bool)
        requires
            self.wf(),
        ensures
            r == match line {
                PjRef::Just(j) => self.dep_visible(j, dep),
                PjRef::Prem(_) => false,
            },
    {
        let j = match line {
            PjRef::Just(j) => j,
            PjRef::Prem(_) => {
                return false;
            },
        };
        if j.idx >= self.justs.len() {
            return false;
        }
        let mut cur = match &self.justs[j.idx] {
            Some(n) => n.parent,
            None => {
                return false;
            },
        };
        let mut before = LineItem::Just(j);
        proof {
            assert(self.valid_just(j));
            assert(self.dep_visible(j, dep) == self.visible_from(cur, before, dep));
        }
        #[verifier::loop_isolation(false)]
        loop
            invariant
                self.valid_sub(cur),
                self.sub_lines(cur).contains(before),
                self.dep_visible(j, dep) == self.visible_from(cur, before, dep),
            decreases Self::sub_index(cur),
        {
            let here = match dep {
                DepRef::Line(PjRef::Prem(p)) => {
                    if p.idx < self.prems.len() {
                        match &self.prems[p.idx] {
                            Some(n) => n.parent == cur,
                            None => false,
                        }
                    } else {
                        false
                    }
                },
                DepRef::Line(PjRef::Just(d)) => self.scan_before(
                    cur,
                    LineItem::Just(d),
                    before,
                ),
                DepRef::Sub(c) => self.scan_before(cur, LineItem::Sub(c), before),
            };
            if here {
                return true;
            }
            let node = self.subs[cur.idx].as_ref().unwrap();
            match node.parent {
                Some(p) => {
                    before = LineItem::Sub(cur);
                    cur = p;
                },
                None => {
                    return false;
                },
            }
        }
    }

    /// A visible dependency resolves: visibility implies the cited
    /// line or subproof is live.
    proof fn lemma_visible_resolves(self, s: SubRef, before: LineItem, dep: DepRef)
        requires
            self.wf(),
            self.valid_sub(s),
            self.visible_from(s, before, dep),
        ensures
            match dep {
                DepRef::Line(PjRef::Prem(p)) => self.valid_prem(p),
                DepRef::Line(PjRef::Just(d)) => self.valid_just(d),
                DepRef::Sub(c) => self.valid_sub(c),
            },
        decreases Self::sub_index(s),
    {
        let here = match dep {
            DepRef::Line(PjRef::Prem(p)) => self.valid_prem(p) && self.prem_parent(p) == s,
            DepRef::Line(PjRef::Just(d)) => listed_before(
                self.sub_lines(s),
                LineItem::Just(d),
                before,
            ),
            DepRef::Sub(c) => listed_before(self.sub_lines(s), LineItem::Sub(c), before),
        };
        if here {
            match dep {
                DepRef::Line(PjRef::Prem(p)) => (),
                DepRef::Line(PjRef::Just(d)) => {
                    let (i, m) = choose|i: int, m: int|
                        0 <= i < m < self.sub_lines(s).len() && self.sub_lines(s)[i]
                            == LineItem::Just(d) && self.sub_lines(s)[m] == before;
                    assert(self.sub_lines(s)[i] == LineItem::Just(d));
                },
                DepRef::Sub(c) => {
                    let (i, m) = choose|i: int, m: int|
                        0 <= i < m < self.sub_lines(s).len() && self.sub_lines(s)[i]
                            == LineItem::Sub(c) && self.sub_lines(s)[m] == before;
                    assert(self.sub_lines(s)[i] == LineItem::Sub(c));
                },
            }
        } else {
            self.lemma_visible_resolves(self.sub_parent(s)->Some_0, LineItem::Sub(s), dep);
        }
    }

    /// The cited dependency expressions of a justification, in citation
    /// order.
    pub open spec fn dep_forms(self, lds: Seq<PjRef>) -> Seq<Form> {
        Seq::new(
            lds.len(),
            |i: int|
                if 0 <= i < lds.len() {
                    match lds[i] {
                        PjRef::Prem(p) => self.prem_expr(p),
                        PjRef::Just(d) => self.just_expr(d),
                    }
                } else {
                    Form::Taut
                },
        )
    }

    /// The verdict `verify_line` owes: a premise is axiomatic; a
    /// justification must cite only resolvable, visible dependencies,
    /// no subproofs (the equivalence rules reason from lines alone),
    /// and a catalog rule that licenses its conclusion from the cited
    /// expressions.
    pub open spec fn verify_spec(
        self,
        rules: Map<RuleId, Seq<(Form, Form)>>,
        r: PjRef,
    ) -> Result<(), VerificationError> {
        match r {
            PjRef::Prem(p) => if self.valid_prem(p) {
                Ok(())
            } else {
                Err(VerificationError::LineNotFound)
            },
            PjRef::Just(j) => if !self.valid_just(j) {
                Err(VerificationError::LineNotFound)
            } else {
                let lds = self.just_line_deps(j);
                let sds = self.just_sub_deps(j);
                if !(forall|i: int|
                    0 <= i < lds.len() ==> self.dep_visible(j, DepRef::Line(#[trigger] lds[i]))) {
                    Err(VerificationError::BadDependency)
                } else if !(forall|i: int|
                    0 <= i < sds.len() ==> self.dep_visible(j, DepRef::Sub(#[trigger] sds[i]))) {
                    Err(VerificationError::BadDependency)
                } else if sds.len() > 0 {
                    Err(VerificationError::WrongRule)
                } else if !rules.contains_key(self.just_rule(j)) {
                    Err(VerificationError::WrongRule)
                } else if rule_applies(
                    rules[self.just_rule(j)],
                    self.just_expr(j),
                    self.dep_forms(lds),
                ) {
                    Ok(())
                } else {
                    Err(VerificationError::WrongRule)
                }
            },
        }
    }

    /// Verify one line against the current document and the given rule
    /// catalog: a fresh check, never cached.
    pub fn verify_line(&self, rules: &RuleTable, r: PjRef) -> (res: Result<
        (),
        VerificationError,
    >)
        requires
            self.wf(),
        ensures
            res == self.verify_spec(rules@, r),
    {
        let j = match r {
            PjRef::Prem(p) => {
                if p.idx < self.prems.len() && self.prems[p.idx].is_some() {
                    return Ok(());
                }
                return Err(VerificationError::LineNotFound);
            },
            PjRef::Just(j) => j,
        };
        if j.idx >= self.justs.len() {
            return Err(VerificationError::LineNotFound);
        }
        if self.justs[j.idx].is_none() {
            return Err(VerificationError::LineNotFound);
        }
        let ghost lds = self.just_line_deps(j);
        let ghost sds = self.just_sub_deps(j);
        // check every cited line, and gather its expression
        let mut deps: Vec<Expr> = Vec::new();
        let mut i: usize = 0;
        let n = self.justs[j.idx].as_ref().unwrap().just.line_deps.len();
        #[verifier::loop_isolation(false)]
        while i < n
            invariant
                0 <= i <= n,
                n == lds.len(),
                self.valid_just(j),
                deps@.len() == i,
                forall|m: int| 0 <= m < i ==> self.dep_visible(j, DepRef::Line(#[trigger] lds[m])),
                forall|m: int| 0 <= m < i ==> (#[trigger] deps@[m])@ == self.dep_forms(lds)[m],
            decreases n - i,
        {
            let ld = self.justs[j.idx].as_ref().unwrap().just.line_deps[i];
            if !self.can_reference_dep(PjRef::Just(j), DepRef::Line(ld)) {
                return Err(VerificationError::BadDependency);
            }
            proof {
                self.lemma_visible_resolves(
                    self.just_parent(j),
                    LineItem::Just(j),
                    DepRef::Line(ld),
                );
            }
            let e = match ld {
                PjRef::Prem(p) => match self.lookup_premise(p) {
                    Some(e) => e.dup(),
                    None => {
                        proof {
                            assert(false);
                        }
                        Expr::Taut
                    },
                },
                PjRef::Just(d) => match self.lookup_justification(d) {
                    Some(just) => just.expr.dup(),
                    None => {
                        proof {
                            assert(false);
                        }
                        Expr::Taut
                    },
                },
            };
            deps.push(e);
            i += 1;
        }
        // check every cited subproof
        let mut i2: usize = 0;
        let n2 = self.justs[j.idx].as_ref().unwrap().just.sub_deps.len();
        #[verifier::loop_isolation(false)]
        while i2 < n2
            invariant
                0 <= i2 <= n2,
                n2 == sds.len(),
                self.valid_just(j),
                forall|m: int| 0 <= m < i2 ==> self.dep_visible(j, DepRef::Sub(#[trigger] sds[m])),
            decreases n2 - i2,
        {
            let sd = self.justs[j.idx].as_ref().unwrap().just.sub_deps[i2];
            if !self.can_reference_dep(PjRef::Just(j), DepRef::Sub(sd)) {
                return Err(VerificationError::BadDependency);
            }
            i2 += 1;
        }
        if n2 > 0 {
            return Err(VerificationError::WrongRule);
        }
        let rule_id = self.justs[j.idx].as_ref().unwrap().just.rule;
        let rule = match rules.get(rule_id) {
            Some(rule) => rule,
            None => {
                return Err(VerificationError::WrongRule);
            },
        };
        let concl = self.justs[j.idx].as_ref().unwrap().just.expr.dup();
        proof {
            assert(deps.deep_view() =~= self.dep_forms(lds));
        }
        if rule.applies(&concl, &deps) {
            Ok(())
        } else {
            Err(VerificationError::WrongRule)
        }
    }
}

/// A kind of proof structure item.
#[derive(Debug, Clone, Copy, PartialEq, Eq, Structural)]
pub enum ProofItemKind {
    /// A premise
    Premise,
    /// A justification
    Just,
    /// A subproof
    Subproof,
}

/// An edit of the document, addressed to one line. Selection and raw
/// text editing are presentation concerns and stay outside the kernel.
#[derive(Debug, Clone, Copy, PartialEq, Eq, Structural)]
pub enum LineActionKind {
    /// Insert a new item of kind `what` beside the addressed line, or
    /// beside the subproof enclosing it when `relative_to` says so.
    Insert { what: ProofItemKind, after: bool, relative_to: ProofItemKind },
    /// Delete the addressed line, or the subproof enclosing it.
    Delete { what: ProofItemKind },
    /// Replace the cited rule of the addressed justification.
    SetRule { rule: RuleId },
    /// Toggle a line citation of the addressed justification.
    ToggleLineDep { dep: PjRef },
    /// Toggle a subproof citation of the addressed justification.
    ToggleSubDep { dep: SubRef },
}

impl ProofTree {
    /// The line item standing for a line reference.
    pub open spec fn item_of(r: PjRef) -> Option<LineItem> {
        match r {
            PjRef::Just(j) => Some(LineItem::Just(j)),
            PjRef::Prem(_) => None,
        }
    }

    /// The subproof enclosing a line: `None` when the line is dangling
    /// or sits at the top level.
    pub open spec fn line_parent_spec(self, r: PjRef) -> Option<SubRef> {
        match r {
            PjRef::Prem(p) => if self.valid_prem(p) && self.prem_parent(p) != Self::root() {
                Some(self.prem_parent(p))
            } else {
                None
            },
            PjRef::Just(j) => if self.valid_just(j) && self.just_parent(j) != Self::root() {
                Some(self.just_parent(j))
            } else {
                None
            },
        }
    }

    /// The subproof a premise's new step lands in: the premise's own
    /// subproof, or the root for a top-level or dangling premise.
    pub open spec fn premise_home(self, r: PjRef) -> SubRef {
        match self.line_parent_spec(r) {
            Some(s) => s,
            None => Self::root(),
        }
    }

    /// The new line holds the default step: an empty-named variable
    /// justified by the placeholder rule from nothing.
    pub open spec fn holds_default_step(self, jr: JustRef) -> bool {
        &&& self.just_expr(jr) == empty_premise_form()
        &&& self.just_rule(jr) == RuleId::Empty
        &&& self.just_line_deps(jr).len() == 0
        &&& self.just_sub_deps(jr).len() == 0
    }

    /// A fresh default premise was appended to the root's premise
    /// list, everything else untouched.
    pub open spec fn default_premise_appended(a: ProofTree, b: ProofTree, p: PremRef) -> bool {
        &&& !a.valid_prem(p)
        &&& b.valid_prem(p)
        &&& b.prem_expr(p) == empty_premise_form()
        &&& b.prem_parent(p) == Self::root()
        &&& b.sub_premises(Self::root()) == a.sub_premises(Self::root()).push(p)
        &&& b.sub_lines(Self::root()) == a.sub_lines(Self::root())
        &&& Self::agree_except(a, b, set![p], Set::empty(), set![Self::root()])
    }

    /// A fresh default premise was inserted beside the premise `at`,
    /// in the same subproof, everything else untouched.
    pub open spec fn default_premise_inserted_beside(
        a: ProofTree,
        b: ProofTree,
        at: PremRef,
        after: bool,
        p: PremRef,
    ) -> bool {
        &&& a.valid_prem(at)
        &&& !a.valid_prem(p)
        &&& b.valid_prem(p)
        &&& b.prem_expr(p) == empty_premise_form()
        &&& b.prem_parent(p) == a.prem_parent(at)
        &&& {
            let sub = a.prem_parent(at);
            let ps = a.sub_premises(sub);
            exists|k: int|
                #![trigger ps[k]]
                {
                    &&& 0 <= k < ps.len()
                    &&& ps[k] == at
                    &&& b.sub_premises(sub) == ps.insert(
                        if after {
                            k + 1
                        } else {
                            k
                        },
                        p,
                    )
                }
        }
        &&& b.sub_lines(a.prem_parent(at)) == a.sub_lines(a.prem_parent(at))
        &&& Self::agree_except(a, b, set![p], Set::empty(), set![a.prem_parent(at)])
    }

    /// A fresh default step was inserted at the front of the line list
    /// of `sub`, everything else untouched.
    pub open spec fn default_step_prepended(
        a: ProofTree,
        b: ProofTree,
        sub: SubRef,
        jr: JustRef,
    ) -> bool {
        &&& !a.valid_just(jr)
        &&& b.valid_just(jr)
        &&& b.holds_default_step(jr)
        &&& b.just_parent(jr) == sub
        &&& b.sub_lines(sub) == a.sub_lines(sub).insert(0, LineItem::Just(jr))
        &&& b.sub_premises(sub) == a.sub_premises(sub)
        &&& Self::agree_except(a, b, Set::empty(), set![jr], set![sub])
    }

    /// A fresh default step was inserted beside the line item `at` in
    /// its own subproof, everything else untouched.
    pub open spec fn default_step_inserted(
        a: ProofTree,
        b: ProofTree,
        at: LineItem,
        after: bool,
        jr: JustRef,
    ) -> bool {
        &&& a.line_item_parent(at) is Some
        &&& {
            let pa = a.line_item_parent(at)->Some_0;
            let la = a.sub_lines(pa);
            &&& !a.valid_just(jr)
            &&& b.valid_just(jr)
            &&& b.holds_default_step(jr)
            &&& b.just_parent(jr) == pa
            &&& exists|k: int|
                {
                    &&& 0 <= k < la.len()
                    &&& la[k] == at
                    &&& b.sub_lines(pa) == la.insert(
                        if after {
                            k + 1
                        } else {
                            k
                        },
                        LineItem::Just(jr),
                    )
                }
            &&& b.sub_premises(pa) == a.sub_premises(pa)
            &&& Self::agree_except(a, b, Set::empty(), set![jr], set![pa])
        }
    }

    /// A fresh subproof holding one default premise and one default
    /// step was inserted beside the line item `at` in its own
    /// subproof, everything else untouched.
    pub open spec fn subproof_inserted(
        a: ProofTree,
        b: ProofTree,
        at: LineItem,
        after: bool,
        c: SubRef,
    ) -> bool {
        &&& a.line_item_parent(at) is Some
        &&& {
            let pa = a.line_item_parent(at)->Some_0;
            let la = a.sub_lines(pa);
            &&& !a.valid_sub(c)
            &&& b.valid_sub(c)
            &&& b.sub_parent(c) == Some(pa)
            &&& b.sub_premises(c).len() == 1
            &&& b.sub_lines(c).len() == 1
            &&& !a.valid_prem(b.sub_premises(c)[0])
            &&& b.valid_prem(b.sub_premises(c)[0])
            &&& b.prem_expr(b.sub_premises(c)[0]) == empty_premise_form()
            &&& b.sub_lines(c)[0] matches LineItem::Just(j0) && !a.valid_just(j0)
                && b.valid_just(j0) && b.holds_default_step(j0)
            &&& exists|k: int|
                #![trigger la[k]]
                {
                    &&& 0 <= k < la.len()
                    &&& la[k] == at
                    &&& b.sub_lines(pa) == la.insert(
                        if after {
                            k + 1
                        } else {
                            k
                        },
                        LineItem::Sub(c),
                    )
                }
            &&& b.sub_premises(pa) == a.sub_premises(pa)
            &&& Self::agree_except(
                a,
                b,
                set![b.sub_premises(c)[0]],
                set![b.sub_lines(c)[0]->Just_0],
                set![pa, c],
            )
        }
    }

    /// The line `r` was removed: its slot cleared, its entry gone from
    /// its list, everything else untouched.
    pub open spec fn line_removed(a: ProofTree, b: ProofTree, r: PjRef) -> bool {
        match r {
            PjRef::Prem(p) => {
                &&& !b.valid_prem(p)
                &&& exists|k: int|
                    #![trigger a.sub_premises(Self::root())[k]]
                    {
                        let ps = a.sub_premises(Self::root());
                        &&& 0 <= k < ps.len()
                        &&& ps[k] == p
                        &&& b.sub_premises(Self::root()) == ps.remove(k)
                    }
                &&& b.sub_lines(Self::root()) == a.sub_lines(Self::root())
                &&& Self::agree_except(a, b, set![p], Set::empty(), set![Self::root()])
            },
            PjRef::Just(j) => {
                &&& !b.valid_just(j)
                &&& {
                    let pa = a.just_parent(j);
                    let la = a.sub_lines(pa);
                    &&& exists|k: int|
                        #![trigger la[k]]
                        {
                            &&& 0 <= k < la.len()
                            &&& la[k] == LineItem::Just(j)
                            &&& b.sub_lines(pa) == la.remove(k)
                        }
                    &&& b.sub_premises(pa) == a.sub_premises(pa)
                    &&& Self::agree_except(a, b, Set::empty(), set![j], set![pa])
                }
            },
        }
    }

    /// The subproof `s` and everything nested inside it were removed;
    /// everything outside survives untouched, and `s` left its
    /// parent's line list.
    pub open spec fn subtree_removed(a: ProofTree, b: ProofTree, s: SubRef) -> bool {
        &&& forall|t: SubRef| #[trigger] b.valid_sub(t) == (a.valid_sub(t) && !a.reaches(t, s))
        &&& forall|p: PremRef|
            #[trigger] b.valid_prem(p) == (a.valid_prem(p) && !a.reaches(a.prem_parent(p), s))
        &&& forall|j: JustRef|
            #[trigger] b.valid_just(j) == (a.valid_just(j) && !a.reaches(a.just_parent(j), s))
        &&& forall|p: PremRef|
            #[trigger] b.valid_prem(p) ==> b.prem_expr(p) == a.prem_expr(p) && b.prem_parent(p)
                == a.prem_parent(p)
        &&& forall|j: JustRef|
            #[trigger] b.valid_just(j) ==> b.just_expr(j) == a.just_expr(j) && b.just_rule(j)
                == a.just_rule(j) && b.just_line_deps(j) == a.just_line_deps(j)
                && b.just_sub_deps(j) == a.just_sub_deps(j) && b.just_parent(j) == a.just_parent(
                j,
            )
        &&& forall|t: SubRef|
            #[trigger] b.valid_sub(t) ==> b.sub_parent(t) == a.sub_parent(t) && b.sub_premises(t)
                == a.sub_premises(t) && (t != a.sub_parent(s)->Some_0 ==> b.sub_lines(t)
                == a.sub_lines(t))
        &&& {
            let pa = a.sub_parent(s)->Some_0;
            let la = a.sub_lines(pa);
            exists|k: int|
                #![trigger la[k]]
                {
                    &&& 0 <= k < la.len()
                    &&& la[k] == LineItem::Sub(s)
                    &&& b.sub_lines(pa) == la.remove(k)
                }
        }
    }

    /// A fresh subproof was inserted beside `at` and `p0` is its
    /// single default premise, the line a front end selects next.
    pub open spec fn subproof_inserted_selected(
        a: ProofTree,
        b: ProofTree,
        at: LineItem,
        after: bool,
        p0: PremRef,
    ) -> bool {
        exists|c: SubRef|
            #[trigger] Self::subproof_inserted(a, b, at, after, c) && p0 == b.sub_premises(c)[0]
    }

    /// What `apply_line_action` did, arm by arm: `a` the document
    /// before, `b` after, `r` the returned selection.
    pub open spec fn action_applied(
        a: ProofTree,
        b: ProofTree,
        action: LineActionKind,
        at: PjRef,
        r: Option<PjRef>,
    ) -> bool {
        match action {
            LineActionKind::SetRule { rule } => r is None && (match at {
                PjRef::Just(j) => {
                    &&& a.valid_just(j) ==> b.valid_just(j) && b.just_rule(j) == rule && b.just_expr(j) == a.just_expr(
                        j,
                    ) && b.just_line_deps(j) == a.just_line_deps(j) && b.just_sub_deps(j) == a.just_sub_deps(j) && Self::agree_except(
                        a,
                        b,
                        Set::empty(),
                        set![j],
                        Set::empty(),
                    )
                    &&& !a.valid_just(j) ==> b == a
                },
                PjRef::Prem(_) => b == a,
            }),
            LineActionKind::ToggleLineDep { dep } => r is None && (match at {
                PjRef::Just(j) => {
                    &&& a.valid_just(j) ==> b.just_line_deps(j) == (
                    if a.just_line_deps(j).contains(dep) {
                        a.just_line_deps(j).filter(|d: PjRef| d != dep)
                    } else {
                        a.just_line_deps(j).push(dep)
                    }) && Self::agree_except(
                        a,
                        b,
                        Set::empty(),
                        set![j],
                        Set::empty(),
                    )
                    &&& !a.valid_just(j) ==> b == a
                },
                PjRef::Prem(_) => b == a,
            }),
            LineActionKind::ToggleSubDep { dep } => r is None && (match at {
                PjRef::Just(j) => {
                    &&& a.valid_just(j) ==> b.just_sub_deps(j) == (
                    if a.just_sub_deps(j).contains(dep) {
                        a.just_sub_deps(j).filter(|d: SubRef| d != dep)
                    } else {
                        a.just_sub_deps(j).push(dep)
                    }) && Self::agree_except(
                        a,
                        b,
                        Set::empty(),
                        set![j],
                        Set::empty(),
                    )
                    &&& !a.valid_just(j) ==> b == a
                },
                PjRef::Prem(_) => b == a,
            }),
            LineActionKind::Delete { what } => r is None && (match what {
                ProofItemKind::Premise | ProofItemKind::Just => {
                    &&& a.may_remove_spec(at) ==> Self::line_removed(
                        a,
                        b,
                        at,
                    )
                    &&& !a.may_remove_spec(at) ==> b == a
                },
                ProofItemKind::Subproof => match a.line_parent_spec(at) {
                    Some(s) => Self::subtree_removed(a, b, s),
                    None => b == a,
                },
            }),
            LineActionKind::Insert { what, after, relative_to } => {
                if relative_to == ProofItemKind::Subproof && a.line_parent_spec(at)
                    is None {
                    r is None && b == a
                } else {
                    let anchor: Option<LineItem> = if relative_to == ProofItemKind::Subproof {
                        Some(LineItem::Sub(a.line_parent_spec(at)->Some_0))
                    } else {
                        Self::item_of(at)
                    };
                    match what {
                        ProofItemKind::Premise => match (anchor, at) {
                            (None, PjRef::Prem(p)) => {
                                &&& a.valid_prem(p) ==> (match r {
                                    Some(PjRef::Prem(p2)) => Self::default_premise_inserted_beside(
                                        a,
                                        b,
                                        p,
                                        after,
                                        p2,
                                    ),
                                    _ => false,
                                })
                                &&& !a.valid_prem(p) ==> r is None && b == a
                            },
                            _ => match r {
                                Some(PjRef::Prem(p2)) => Self::default_premise_appended(a, b, p2),
                                _ => false,
                            },
                        },
                        ProofItemKind::Just => match anchor {
                            Some(item) => {
                                &&& a.line_item_parent(item) is Some ==> (match r {
                                    Some(PjRef::Just(jr)) => Self::default_step_inserted(
                                        a,
                                        b,
                                        item,
                                        after,
                                        jr,
                                    ),
                                    _ => false,
                                })
                                &&& a.line_item_parent(item) is None ==> r is None && b == a
                            },
                            None => match r {
                                Some(PjRef::Just(jr)) => Self::default_step_prepended(
                                    a,
                                    b,
                                    a.premise_home(at),
                                    jr,
                                ),
                                _ => false,
                            },
                        },
                        ProofItemKind::Subproof => match anchor {
                            Some(item) => {
                                &&& a.line_item_parent(item) is Some ==> (match r {
                                    Some(PjRef::Prem(p0)) => Self::subproof_inserted_selected(
                                        a,
                                        b,
                                        item,
                                        after,
                                        p0,
                                    ),
                                    _ => false,
                                })
                                &&& a.line_item_parent(item) is None ==> r is None && b == a
                            },
                            None => r is None && b == a,
                        },
                    }
                }
            },
        }
    }

    /// The dispatch conclusion for inserting a subproof: with the
    /// anchor resolved to `item` and a fresh subproof's premise `p0`
    /// selected, the action is accounted for.
    proof fn lemma_action_applied_insert_subproof(
        a: ProofTree,
        b: ProofTree,
        action: LineActionKind,
        at: PjRef,
        item: LineItem,
        p0: PremRef,
    )
        requires
            action is Insert,
            action->Insert_what == ProofItemKind::Subproof,
            action->Insert_relative_to == ProofItemKind::Subproof ==> a.line_parent_spec(at)
                is Some && item == LineItem::Sub(a.line_parent_spec(at)->Some_0),
            action->Insert_relative_to != ProofItemKind::Subproof ==> Self::item_of(at) == Some(
                item,
            ),
            a.line_item_parent(item) is Some,
            Self::subproof_inserted_selected(a, b, item, action->Insert_after, p0),
        ensures
            Self::action_applied(a, b, action, at, Some(PjRef::Prem(p0))),
    {
        let what = action->Insert_what;
        let after = action->Insert_after;
        let relative_to = action->Insert_relative_to;
        let r = Some(PjRef::Prem(p0));
        assert(!(relative_to == ProofItemKind::Subproof && a.line_parent_spec(at) is None));
        let anchor: Option<LineItem> = if relative_to == ProofItemKind::Subproof {
            Some(LineItem::Sub(a.line_parent_spec(at)->Some_0))
        } else {
            Self::item_of(at)
        };
        assert(anchor == Some(item));
        assert(match r {
            Some(PjRef::Prem(q0)) => Self::subproof_inserted_selected(a, b, item, after, q0),
            _ => false,
        });
    }

    /// Perform one edit addressed to the line `at`, as an interactive
    /// front end dispatches it. Insertions land beside the line, or
    /// beside the subproof enclosing it when `relative_to` says so;
    /// new premises anchored to a step go to the end of the top level,
    /// and a new step anchored to a premise opens that premise's own
    /// subproof. Deletions are guarded exactly as `remove_line` and
    /// `remove_subproof` are. The result is the line a front end would
    /// select next: the freshly created line, when the action created
    /// one. Every refused action leaves the document unchanged.
    #[verifier::rlimit(100)]
    #[verifier::spinoff_prover]
    pub fn apply_line_action(&mut self, action: LineActionKind, at: PjRef) -> (r: Option<PjRef>)
        requires
            old(self).wf(),
        ensures
            final(self).wf(),
            Self::action_applied(*old(self), *final(self), action, at, r),
    {
        match action {
            LineActionKind::SetRule { rule } => {
                match at {
                    PjRef::Just(j) => {
                        self.set_step_rule(j, rule);
                    },
                    PjRef::Prem(_) => (),
                }
                proof {
                    assert(Self::action_applied(*old(self), *self, action, at, None));
                }
                None
            },
            LineActionKind::ToggleLineDep { dep } => {
                match at {
                    PjRef::Just(j) => {
                        self.toggle_line_dep(j, dep);
                    },
                    PjRef::Prem(_) => (),
                }
                proof {
                    assert(Self::action_applied(*old(self), *self, action, at, None));
                }
                None
            },
            LineActionKind::ToggleSubDep { dep } => {
                match at {
                    PjRef::Just(j) => {
                        self.toggle_sub_dep(j, dep);
                    },
                    PjRef::Prem(_) => (),
                }
                proof {
                    assert(Self::action_applied(*old(self), *self, action, at, None));
                }
                None
            },
            LineActionKind::Delete { what } => {
                match what {
                    ProofItemKind::Premise | ProofItemKind::Just => {
                        self.remove_line(at);
                    },
                    ProofItemKind::Subproof => {
                        // delete the subproof enclosing the line; the
                        // root is never deleted
                        match self.parent_of_line(at) {
                            Some(sr) => {
                                proof {
                                    assert(old(self).line_parent_spec(at) == Some(sr));
                                    match at {
                                        PjRef::Prem(p) => {
                                            assert(old(self).valid_prem(p));
                                            assert(old(self).valid_sub(sr));
                                        },
                                        PjRef::Just(j) => {
                                            assert(old(self).valid_just(j));
                                            assert(old(self).valid_sub(sr));
                                        },
                                    }
                                }
                                self.remove_subproof(sr);
                                proof {
                                    assert(Self::subtree_removed(*old(self), *self, sr));
                                }
                            },
                            None => (),
                        }
                    },
                }
                proof {
                    assert(Self::action_applied(*old(self), *self, action, at, None));
                }
                None
            },
            LineActionKind::Insert { what, after, relative_to } => {
                // resolve the insertion point: the line itself, or the
                // subproof enclosing it
                let anchor_item: Option<LineItem> = match relative_to {
                    ProofItemKind::Premise | ProofItemKind::Just => match at {
                        PjRef::Just(j) => Some(LineItem::Just(j)),
                        PjRef::Prem(_) => None,
                    },
                    ProofItemKind::Subproof => match self.parent_of_line(at) {
                        Some(parent) => {
                            proof {
                                assert(old(self).line_parent_spec(at) == Some(parent));
                            }
                            Some(LineItem::Sub(parent))
                        },
                        None => {
                            proof {
                                assert(old(self).line_parent_spec(at) is None);
                                assert(Self::action_applied(*old(self), *self, action, at, None));
                            }
                            return None;
                        },
                    },
                };
                match what {
                    ProofItemKind::Premise => {
                        match (anchor_item, at) {
                            (None, PjRef::Prem(p)) => {
                                // insert a premise beside a premise
                                match self.add_premise_relative(new_empty_premise(), p, after) {
                                    Some(p2) => {
                                        proof {
                                            assert(Self::default_premise_inserted_beside(
                                                *old(self),
                                                *self,
                                                p,
                                                after,
                                                p2,
                                            ));
                                            assert(Self::action_applied(
                                                *old(self),
                                                *self,
                                                action,
                                                at,
                                                Some(PjRef::Prem(p2)),
                                            ));
                                        }
                                        Some(PjRef::Prem(p2))
                                    },
                                    None => {
                                        proof {
                                            assert(Self::action_applied(
                                                *old(self),
                                                *self,
                                                action,
                                                at,
                                                None,
                                            ));
                                        }
                                        None
                                    },
                                }
                            },
                            _ => {
                                // otherwise premises land at the end of
                                // the top level
                                let p2 = self.add_premise(new_empty_premise());
                                proof {
                                    assert(Self::default_premise_appended(
                                        *old(self),
                                        *self,
                                        p2,
                                    ));
                                    assert(Self::action_applied(
                                        *old(self),
                                        *self,
                                        action,
                                        at,
                                        Some(PjRef::Prem(p2)),
                                    ));
                                }
                                Some(PjRef::Prem(p2))
                            },
                        }
                    },
                    ProofItemKind::Just => {
                        match anchor_item {
                            Some(item) => {
                                let step = new_empty_step();
                                match self.add_step_relative(step, item, after) {
                                    Some(j2) => {
                                        proof {
                                            assert(Self::default_step_inserted(
                                                *old(self),
                                                *self,
                                                item,
                                                after,
                                                j2,
                                            ));
                                            assert(Self::action_applied(
                                                *old(self),
                                                *self,
                                                action,
                                                at,
                                                Some(PjRef::Just(j2)),
                                            ));
                                        }
                                        Some(PjRef::Just(j2))
                                    },
                                    None => {
                                        proof {
                                            assert(Self::action_applied(
                                                *old(self),
                                                *self,
                                                action,
                                                at,
                                                None,
                                            ));
                                        }
                                        None
                                    },
                                }
                            },
                            None => {
                                // the anchor is a premise: the step opens
                                // the premise's own subproof
                                let sub = match self.parent_of_line(at) {
                                    Some(sub) => sub,
                                    None => self.root_ref(),
                                };
                                proof {
                                    assert(sub == old(self).premise_home(at));
                                    assert(old(self).valid_sub(sub)) by {
                                        match at {
                                            PjRef::Prem(p) => {
                                                if old(self).valid_prem(p) {
                                                    assert(old(self).valid_sub(
                                                        old(self).prem_parent(p),
                                                    ));
                                                }
                                            },
                                            PjRef::Just(_) => (),
                                        }
                                    }
                                }
                                match self.prepend_step_in(sub, new_empty_step()) {
                                    Some(j2) => {
                                        proof {
                                            assert(Self::default_step_prepended(
                                                *old(self),
                                                *self,
                                                sub,
                                                j2,
                                            ));
                                            assert(Self::action_applied(
                                                *old(self),
                                                *self,
                                                action,
                                                at,
                                                Some(PjRef::Just(j2)),
                                            ));
                                        }
                                        Some(PjRef::Just(j2))
                                    },
                                    None => {
                                        proof {
                                            assert(false);
                                        }
                                        None
                                    },
                                }
                            },
                        }
                    },
                    ProofItemKind::Subproof => {
                        match anchor_item {
                            Some(item) => match self.add_subproof_relative(item, after) {
                                Some(sub) => {
                                    proof {
                                        assert(Self::subproof_inserted(
                                            *old(self),
                                            *self,
                                            item,
                                            after,
                                            sub,
                                        ));
                                    }
                                    // select the new subproof's premise
                                    match self.premises_of(sub) {
                                        Some(ps) => {
                                            if ps.len() > 0 {
                                                proof {
                                                    assert(ps@[0] == self.sub_premises(sub)[0]);
                                                    assert(old(self).line_item_parent(item)
                                                        is Some);
                                                    assert(Self::subproof_inserted(
                                                        *old(self),
                                                        *self,
                                                        item,
                                                        after,
                                                        sub,
                                                    ) && ps@[0] == self.sub_premises(sub)[0]);
                                                    assert(Self::subproof_inserted_selected(
                                                        *old(self),
                                                        *self,
                                                        item,
                                                        after,
                                                        ps@[0],
                                                    ));
                                                    assert(ps[0] == ps@[0]);
                                                    Self::lemma_action_applied_insert_subproof(
                                                        *old(self),
                                                        *self,
                                                        action,
                                                        at,
                                                        item,
                                                        ps[0],
                                                    );
                                                }
                                                Some(PjRef::Prem(ps[0]))
                                            } else {
                                                proof {
                                                    assert(false);
                                                }
                                                None
                                            }
                                        },
                                        None => {
                                            proof {
                                                assert(false);
                                            }
                                            None
                                        },
                                    }
                                },
                                None => {
                                    proof {
                                        assert(Self::action_applied(
                                            *old(self),
                                            *self,
                                            action,
                                            at,
                                            None,
                                        ));
                                    }
                                    None
                                },
                            },
                            // a subproof cannot be inserted beside a
                            // premise
                            None => {
                                proof {
                                    assert(Self::action_applied(
                                        *old(self),
                                        *self,
                                        action,
                                        at,
                                        None,
                                    ));
                                }
                                None
                            },
                        }
                    },
                }
            },
        }
    }
}

/// The model of the default premise: an empty-named variable.
pub open spec fn empty_premise_form() -> Form {
    Form::App { name: Seq::<char>::empty(), args: Seq::<Form>::empty() }
}

/// The default premise of a new line: an empty-named variable.
pub fn new_empty_premise() -> (r: Expr)
    ensures
        r@ == empty_premise_form(),
{
    let r = Expr::var("");
    proof {
        reveal_strlit("");
        assert(r@->App_name =~= Seq::<char>::empty());
    }
    r
}

/// The default step of a new line: an empty-named variable concluded by
/// the placeholder rule from nothing.
pub fn new_empty_step() -> (r: Justification)
    ensures
        r.expr@ == empty_premise_form(),
        r.rule == RuleId::Empty,
        r.line_deps@.len() == 0,
        r.sub_deps@.len() == 0,
{
    Justification {
        expr: new_empty_premise(),
        rule: RuleId::Empty,
        line_deps: Vec::new(),
        sub_deps: Vec::new(),
    }
}

/// Remove every occurrence of `dep` when present, append it when
/// absent.
fn toggle_pj(deps: Vec<PjRef>, dep: PjRef) -> (r: Vec<PjRef>)
    ensures
        r@ == (if deps@.contains(dep) {
            deps@.filter(|d: PjRef| d != dep)
        } else {
            deps@.push(dep)
        }),
{
    let mut present: bool = false;
    let mut i: usize = 0;
    #[verifier::loop_isolation(false)]
    while i < deps.len()
        invariant
            0 <= i <= deps@.len(),
            present == deps@.subrange(0, i as int).contains(dep),
        decreases deps@.len() - i,
    {
        let ghost pre = deps@.subrange(0, i as int);
        if deps[i] == dep {
            present = true;
        }
        proof {
            assert(deps@.subrange(0, i + 1) =~= pre.push(deps@[i as int]));
            if present {
                if pre.contains(dep) || deps@[i as int] == dep {
                    let w = if deps@[i as int] == dep {
                        i as int
                    } else {
                        choose|w: int| 0 <= w < pre.len() && pre[w] == dep
                    };
                    assert(deps@.subrange(0, i + 1)[w] == dep);
                }
            } else {
                assert forall|w: int| 0 <= w < i + 1 implies #[trigger] deps@.subrange(
                    0,
                    i + 1,
                )[w] != dep by {
                    if w < i {
                        assert(pre[w] == deps@.subrange(0, i + 1)[w]);
                    }
                }
            }
        }
        i += 1;
    }
    proof {
        assert(deps@.subrange(0, deps@.len() as int) =~= deps@);
    }
    if present {
        let mut out: Vec<PjRef> = Vec::new();
        let mut k: usize = 0;
        #[verifier::loop_isolation(false)]
        while k < deps.len()
            invariant
                0 <= k <= deps@.len(),
                out@ == deps@.subrange(0, k as int).filter(|d: PjRef| d != dep),
            decreases deps@.len() - k,
        {
            let ghost pre = deps@.subrange(0, k as int);
            if !(deps[k] == dep) {
                out.push(deps[k]);
            }
            proof {
                assert(deps@.subrange(0, k + 1) =~= pre.push(deps@[k as int]));
                pre.lemma_filter_push(deps@[k as int], |d: PjRef| d != dep);
            }
            k += 1;
        }
        out
    } else {
        let mut out = deps;
        out.push(dep);
        out
    }
}

/// Remove every occurrence of `dep` when present, append it when
/// absent.
fn toggle_sub(deps: Vec<SubRef>, dep: SubRef) -> (r: Vec<SubRef>)
    ensures
        r@ == (if deps@.contains(dep) {
            deps@.filter(|d: SubRef| d != dep)
        } else {
            deps@.push(dep)
        }),
{
    let mut present: bool = false;
    let mut i: usize = 0;
    #[verifier::loop_isolation(false)]
    while i < deps.len()
        invariant
            0 <= i <= deps@.len(),
            present == deps@.subrange(0, i as int).contains(dep),
        decreases deps@.len() - i,
    {
        let ghost pre = deps@.subrange(0, i as int);
        if deps[i] == dep {
            present = true;
        }
        proof {
            assert(deps@.subrange(0, i + 1) =~= pre.push(deps@[i as int]));
            if present {
                if pre.contains(dep) || deps@[i as int] == dep {
                    let w = if deps@[i as int] == dep {
                        i as int
                    } else {
                        choose|w: int| 0 <= w < pre.len() && pre[w] == dep
                    };
                    assert(deps@.subrange(0, i + 1)[w] == dep);
                }
            } else {
                assert forall|w: int| 0 <= w < i + 1 implies #[trigger] deps@.subrange(
                    0,
                    i + 1,
                )[w] != dep by {
                    if w < i {
                        assert(pre[w] == deps@.subrange(0, i + 1)[w]);
                    }
                }
            }
        }
        i += 1;
    }
    proof {
        assert(deps@.subrange(0, deps@.len() as int) =~= deps@);
    }
    if present {
        let mut out: Vec<SubRef> = Vec::new();
        let mut k: usize = 0;
        #[verifier::loop_isolation(false)]
        while k < deps.len()
            invariant
                0 <= k <= deps@.len(),
                out@ == deps@.subrange(0, k as int).filter(|d: SubRef| d != dep),
            decreases deps@.len() - k,
        {
            let ghost pre = deps@.subrange(0, k as int);
            if !(deps[k] == dep) {
                out.push(deps[k]);
            }
            proof {
                assert(deps@.subrange(0, k + 1) =~= pre.push(deps@[k as int]));
                pre.lemma_filter_push(deps@[k as int], |d: SubRef| d != dep);
            }
            k += 1;
        }
        out
    } else {
        let mut out = deps;
        out.push(dep);
        out
    }
}

} // verus!
