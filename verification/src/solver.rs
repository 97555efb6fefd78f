//! The unifier: decomposition of constraints, pattern unification, and
//! the substitution of solutions for metavariables.

use vstd::prelude::*;
use std::collections::HashMap;
use crate::constraint::{
    clone_constraints, is_pattern, term_is_pattern, AssertedBy, AssertedByView,
    CategorizedConstraint, CategorizedConstraintView, Constraint, ConstraintCategory,
    ConstraintSeq, ConstraintView, Justification, JustificationView,
};
use crate::queue::{enqueue, ConstraintQueue};
use crate::term::{
    term_view, terms_size, Binder, BinderView, Name, NameView, Term, TermView,
};
use crate::typeck::{TyCtxt, TyCtxtView, REDUCTION_LIMIT};
use crate::item::{
    Data, DataView, Extern, ExternView, Function, FunctionView, Item, ItemView, Module, ModuleView,
};
use crate::views::{empty_list, joined, pushed, result_view};

verus! {

/// The most visits that one run of `solve` makes without the queue getting
/// shorter: visits that park a constraint again.
pub const SOLVE_LIMIT: usize = 4096;

/// What the solver reports when it cannot go on.
#[derive(Debug)]
pub enum Error {
    /// Decomposition of a constraint could not be carried out.
    Simplification(Justification),
    /// The constraint with this justification cannot be met.
    Justification(Justification),
    /// Reduction or the supply of names failed underneath the solver.
    TypeCk(Box<crate::typeck::Error>),
    /// A metavariable is left without a solution.
    UnsolvedMeta(Name),
    /// A choice constraint was met; no rule handles one.
    UnsupportedChoice,
}

pub ghost enum ErrorView {
    Simplification(JustificationView),
    Justification(JustificationView),
    TypeCk(crate::typeck::ErrorView),
    UnsolvedMeta(NameView),
    UnsupportedChoice,
}

impl View for Error {
    type V = ErrorView;

    open spec fn view(&self) -> ErrorView {
        match *self {
            Error::Simplification(j) => ErrorView::Simplification(j@),
            Error::Justification(j) => ErrorView::Justification(j@),
            Error::TypeCk(e) => ErrorView::TypeCk(e@),
            Error::UnsolvedMeta(n) => ErrorView::UnsolvedMeta(n@),
            Error::UnsupportedChoice => ErrorView::UnsupportedChoice,
        }
    }
}

impl DeepView for Error {
    type V = ErrorView;

    open spec fn deep_view(&self) -> ErrorView {
        self@
    }
}

/// A solver state set aside at a branching point.
pub struct Choice {
    pub constraints: ConstraintQueue,
    pub constraint_mapping: HashMap<usize, Vec<CategorizedConstraint>>,
    pub solution_mapping: HashMap<usize, (Term, Justification)>,
    pub assumption_justification: Justification,
    pub constraint_justification: Justification,
}

/// The unifier: the constraints that wait, those parked under the number of
/// the metavariable that blocks them, and the solutions found so far, each
/// under the number of its metavariable.
pub struct Solver<'tcx> {
    pub ty_cx: &'tcx mut TyCtxt,
    pub constraints: ConstraintQueue,
    pub constraint_mapping: HashMap<usize, Vec<CategorizedConstraint>>,
    pub solution_mapping: HashMap<usize, (Term, Justification)>,
    pub choice_stack: Vec<Choice>,
}

pub type Solutions = Map<usize, (TermView, JustificationView)>;

pub type Parked = Map<usize, Seq<CategorizedConstraintView>>;

/// The model of a solution map: under each number the model of its term and justification.
pub open spec fn solutions_view(m: Map<usize, (Term, Justification)>) -> Solutions {
    Map::new(|k: usize| m.contains_key(k), |k: usize| (m[k].0@, m[k].1@))
}

/// The model of the parked constraints.
pub open spec fn parked_view(m: Map<usize, Vec<CategorizedConstraint>>) -> Parked {
    Map::new(|k: usize| m.contains_key(k), |k: usize| m[k].deep_view())
}

pub ghost struct SolverView {
    pub cx: TyCtxtView,
    pub queue: Seq<CategorizedConstraintView>,
    pub parked: Parked,
    pub solutions: Solutions,
}

impl<'tcx> View for Solver<'tcx> {
    type V = SolverView;

    open spec fn view(&self) -> SolverView {
        SolverView {
            cx: self.ty_cx@,
            queue: self.constraints@,
            parked: parked_view(self.constraint_mapping@),
            solutions: solutions_view(self.solution_mapping@),
        }
    }
}

/// The number of the metavariable at the head of `t`; 0 if there is none.
pub open spec fn head_meta(t: TermView) -> usize {
    match t.head() {
        TermView::Var { name } => meta_number(name),
        _ => 0,
    }
}

/// The number of a metavariable; 0 for any other name.
pub open spec fn meta_number(n: NameView) -> usize {
    match n {
        NameView::Meta { number, .. } => number,
        _ => 0,
    }
}

/// `t` with every metavariable replaced by its solution; the first
/// metavariable without one is the error.
pub open spec fn metavars_replaced(t: TermView, solutions: Solutions) -> Result<TermView, ErrorView>
    decreases t,
{
    match t {
        TermView::Var { name: NameView::Meta { number, .. } } => if solutions.contains_key(number) {
            Ok(solutions[number].0)
        } else {
            Err(ErrorView::UnsolvedMeta(t->name))
        },
        TermView::App { span, fun, arg } => match metavars_replaced(*fun, solutions) {
            Err(e) => Err(e),
            Ok(f) => match metavars_replaced(*arg, solutions) {
                Err(e) => Err(e),
                Ok(a) => Ok(TermView::App { span, fun: Box::new(f), arg: Box::new(a) }),
            },
        },
        TermView::Forall { span, binder, term } => match metavars_replaced(*binder.ty, solutions) {
            Err(e) => Err(e),
            Ok(ty) => match metavars_replaced(*term, solutions) {
                Err(e) => Err(e),
                Ok(b) => Ok(
                    TermView::Forall {
                        span,
                        binder: BinderView { name: binder.name, ty: Box::new(ty) },
                        term: Box::new(b),
                    },
                ),
            },
        },
        TermView::Lambda { span, binder, body } => match metavars_replaced(*binder.ty, solutions) {
            Err(e) => Err(e),
            Ok(ty) => match metavars_replaced(*body, solutions) {
                Err(e) => Err(e),
                Ok(b) => Ok(
                    TermView::Lambda {
                        span,
                        binder: BinderView { name: binder.name, ty: Box::new(ty) },
                        body: Box::new(b),
                    },
                ),
            },
        },
        _ => Ok(t),
    }
}

/// The binder `b` with the metavariables of its type replaced by their solutions.
pub open spec fn binder_metavars_replaced(b: BinderView, solutions: Solutions) -> Result<
    BinderView,
    ErrorView,
> {
    match metavars_replaced(*b.ty, solutions) {
        Err(e) => Err(e),
        Ok(ty) => Ok(BinderView { name: b.name, ty: Box::new(ty) }),
    }
}

/// `t` with every solved metavariable replaced by its solution; the others stay.
pub open spec fn solutions_applied(t: TermView, solutions: Solutions) -> TermView
    decreases t,
{
    match t {
        TermView::Var { name: NameView::Meta { number, .. } } => if solutions.contains_key(number) {
            solutions[number].0
        } else {
            t
        },
        TermView::App { span, fun, arg } => TermView::App {
            span,
            fun: Box::new(solutions_applied(*fun, solutions)),
            arg: Box::new(solutions_applied(*arg, solutions)),
        },
        TermView::Forall { span, binder, term } => TermView::Forall {
            span,
            binder: BinderView {
                name: binder.name,
                ty: Box::new(solutions_applied(*binder.ty, solutions)),
            },
            term: Box::new(solutions_applied(*term, solutions)),
        },
        TermView::Lambda { span, binder, body } => TermView::Lambda {
            span,
            binder: BinderView {
                name: binder.name,
                ty: Box::new(solutions_applied(*binder.ty, solutions)),
            },
            body: Box::new(solutions_applied(*body, solutions)),
        },
        _ => t,
    }
}

/// The constraints that pair the first `n` terms of `ts` with those of `us`, each categorized.
pub open spec fn pairs(ts: Seq<TermView>, us: Seq<TermView>, j: JustificationView, n: nat) -> Seq<
    CategorizedConstraintView,
>
    decreases n,
{
    if n == 0 || n > ts.len() || n > us.len() {
        Seq::empty()
    } else {
        pairs(ts, us, j, (n - 1) as nat).push(
            ConstraintView::Unification(ts[n - 1], us[n - 1], j).categorize(),
        )
    }
}

/// The names of the variables among `args` that are locals, in their order.
pub open spec fn local_names(args: Seq<TermView>, n: nat) -> Seq<NameView>
    decreases n,
{
    if n == 0 || n > args.len() {
        Seq::empty()
    } else {
        let before = local_names(args, (n - 1) as nat);
        match args[n - 1] {
            TermView::Var { name } => if name is Local {
                before.push(name)
            } else {
                before
            },
            _ => before,
        }
    }
}

pub open spec fn min_len(a: Seq<TermView>, b: Seq<TermView>) -> nat {
    if a.len() <= b.len() {
        a.len()
    } else {
        b.len()
    }
}

impl SolverView {
    /// The term as a reader should see it: solved metavariables replaced, then
    /// reduced if reduction ends within the limit.
    pub open spec fn explain(self, t: TermView) -> TermView {
        let replaced = solutions_applied(t, self.solutions);
        match self.cx.eval(replaced) {
            Ok(normal) => normal,
            Err(_) => replaced,
        }
    }

    /// The justification with each of its terms explained.
    pub open spec fn eval_justification(self, j: JustificationView) -> JustificationView
        decreases j,
    {
        match j {
            JustificationView::Asserted(AssertedByView::Application(span, t, u)) => {
                JustificationView::Asserted(
                    AssertedByView::Application(span, self.explain(t), self.explain(u)),
                )
            },
            JustificationView::Asserted(AssertedByView::ExpectedFound(t, u)) => {
                JustificationView::Asserted(
                    AssertedByView::ExpectedFound(self.explain(t), self.explain(u)),
                )
            },
            JustificationView::Assumption => JustificationView::Assumption,
            JustificationView::Join(a, b) => JustificationView::Join(
                Box::new(self.eval_justification(*a)),
                Box::new(self.eval_justification(*b)),
            ),
        }
    }

    /// The error that says that the constraint justified by `j` cannot be met.
    pub open spec fn mismatch(self, j: JustificationView) -> ErrorView {
        ErrorView::Justification(self.eval_justification(j))
    }

    /// The constraints that remain of `t ≡ u` after decomposition, and the
    /// state after it. `fuel` is the number of times that a side may still
    /// be reduced; taking two terms apart costs nothing.
    pub open spec fn simplify(
        self,
        fuel: nat,
        t: TermView,
        u: TermView,
        j: JustificationView,
    ) -> (Result<Seq<CategorizedConstraintView>, ErrorView>, SolverView)
        decreases fuel, t.size() + u.size(), 0nat,
    {
        if t.same(u) {
            (Ok(Seq::empty()), self)
        } else if self.cx.is_bi_reducible(t) {
            if fuel == 0 {
                (Err(self.mismatch(j)), self)
            } else {
                match self.cx.eval(t) {
                    Ok(next) => self.simplify((fuel - 1) as nat, next, u, j),
                    Err(_) => (Err(self.mismatch(j)), self),
                }
            }
        } else if self.cx.is_bi_reducible(u) {
            if fuel == 0 {
                (Err(self.mismatch(j)), self)
            } else {
                match self.cx.eval(u) {
                    Ok(next) => self.simplify((fuel - 1) as nat, t, next, j),
                    Err(_) => (Err(self.mismatch(j)), self),
                }
            }
        } else if t.head_is_local() && u.head_is_local() && t.head().same(u.head()) {
            proof {
                crate::term::lemma_args_size(t);
                crate::term::lemma_args_size(u);
            }
            self.simplify_spines(fuel, t.args(), u.args(), j, min_len(t.args(), u.args()))
        } else if t.head_is_global() && u.head_is_global() && t.head().same(u.head()) {
            if !self.cx.head_reducible(t.head()->name) {
                (Ok(pairs(t.args(), u.args(), j, min_len(t.args(), u.args()))), self)
            } else if !t.has_meta() && !u.has_meta() {
                proof {
                    crate::term::lemma_args_size(t);
                    crate::term::lemma_args_size(u);
                }
                self.simplify_spines(fuel, t.args(), u.args(), j, min_len(t.args(), u.args()))
            } else {
                (
                    Ok(
                        seq![
                            CategorizedConstraintView {
                                category: ConstraintCategory::FlexRigid,
                                constraint: ConstraintView::Unification(t, u, j),
                            },
                        ],
                    ),
                    self,
                )
            }
        } else if t is Forall && u is Forall {
            self.simplify_binders(
                fuel,
                t->Forall_binder,
                *t->term,
                u->Forall_binder,
                *u->term,
                j,
            )
        } else if t is Lambda && u is Lambda {
            self.simplify_binders(
                fuel,
                t->Lambda_binder,
                *t->body,
                u->Lambda_binder,
                *u->body,
                j,
            )
        } else if self.cx.is_stuck(t) is Some || self.cx.is_stuck(u) is Some {
            (Ok(seq![ConstraintView::Unification(t, u, j).categorize()]), self)
        } else {
            (Err(self.mismatch(j)), self)
        }
    }

    /// Decomposition of the first `n` pairs of two spines, one pair after the other.
    pub open spec fn simplify_spines(
        self,
        fuel: nat,
        ts: Seq<TermView>,
        us: Seq<TermView>,
        j: JustificationView,
        n: nat,
    ) -> (Result<Seq<CategorizedConstraintView>, ErrorView>, SolverView)
        decreases fuel, terms_size(ts) + terms_size(us), n,
    {
        if n == 0 || n > ts.len() || n > us.len() {
            (Ok(Seq::empty()), self)
        } else {
            let (before, s1) = self.simplify_spines(fuel, ts, us, j, (n - 1) as nat);
            match before {
                Err(e) => (Err(e), s1),
                Ok(cs) => {
                    proof {
                        crate::term::lemma_term_in_size(ts, n - 1);
                        crate::term::lemma_term_in_size(us, n - 1);
                    }
                    let (last, s2) = s1.simplify(fuel, ts[n - 1], us[n - 1], j);
                    match last {
                        Err(e) => (Err(e), s2),
                        Ok(more) => (Ok(cs + more), s2),
                    }
                },
            }
        }
    }

    /// Decomposition of two binders with their bodies: the types of the
    /// binders first, then the bodies with one fresh local in place of both
    /// bound variables.
    pub open spec fn simplify_binders(
        self,
        fuel: nat,
        b1: BinderView,
        body1: TermView,
        b2: BinderView,
        body2: TermView,
        j: JustificationView,
    ) -> (Result<Seq<CategorizedConstraintView>, ErrorView>, SolverView)
        decreases fuel, b1.ty.size() + body1.size() + b2.ty.size() + body2.size(), 0nat,
    {
        if self.cx.local_counter == usize::MAX {
            (Err(ErrorView::TypeCk(crate::typeck::ErrorView::OutOfNames)), self)
        } else {
            let local = self.cx.next_local(b1.name.repr(), *b1.ty).to_term();
            let s1 = SolverView { cx: self.cx.minted(), ..self };
            proof {
                crate::term::lemma_size_positive(body1);
                crate::term::lemma_size_positive(body2);
                crate::term::lemma_size_positive(*b1.ty);
                crate::term::lemma_size_positive(*b2.ty);
                crate::term::lemma_open_size(body1, local, 0);
                crate::term::lemma_open_size(body2, local, 0);
            }
            let (first, s2) = s1.simplify(fuel, *b1.ty, *b2.ty, j);
            match first {
                Err(e) => (Err(e), s2),
                Ok(cs) => {
                    let (second, s3) = s2.simplify(
                        fuel,
                        body1.open_with(local, 0),
                        body2.open_with(local, 0),
                        j,
                    );
                    match second {
                        Err(e) => (Err(e), s3),
                        Ok(more) => (Ok(cs + more), s3),
                    }
                },
            }
        }
    }

    /// The metavariable that a constraint between `r` and `s` waits for: of
    /// two, the one that is solved already, else the one of `s`.
    pub open spec fn pivot(self, r: TermView, s: TermView) -> Option<NameView> {
        match (self.cx.is_stuck(r), self.cx.is_stuck(s)) {
            (Some(m1), Some(m2)) => if self.solutions.contains_key(meta_number(m1)) {
                Some(m1)
            } else {
                Some(m2)
            },
            (Some(m), None) => Some(m),
            (None, Some(m)) => Some(m),
            (None, None) => None,
        }
    }

    /// The state with `c` parked under the metavariable numbered `m`, and waiting in the queue.
    pub open spec fn park(self, m: usize, c: CategorizedConstraintView) -> SolverView {
        let before = if self.parked.contains_key(m) {
            self.parked[m]
        } else {
            Seq::empty()
        };
        SolverView { parked: self.parked.insert(m, before.push(c)), queue: enqueue(self.queue, c), ..self }
    }

    /// The state with the metavariable at the head of `side` solved: it
    /// becomes the lambda over the locals that it is applied to, around `other`.
    pub open spec fn solved(self, side: TermView, other: TermView, j: JustificationView) -> SolverView {
        let m = head_meta(side);
        let locals = local_names(side.args(), side.args().len());
        SolverView {
            solutions: self.solutions.insert(m, (TermView::abstract_lambda(locals, other), j)),
            ..self
        }
    }

    /// What visiting one constraint does to the state.
    pub open spec fn visit(self, fuel: nat, c: CategorizedConstraintView) -> (
        Result<(), ErrorView>,
        SolverView,
    )
        decreases fuel, 1nat, 0nat,
    {
        match c.constraint {
            ConstraintView::Unification(t, u, j) => self.visit_unification(fuel, t, u, j, c.category),
            ConstraintView::Choice(_) => (Err(ErrorView::UnsupportedChoice), self),
        }
    }

    /// What visiting the first `n` constraints of `cs` does, in their order; the first error ends it.
    pub open spec fn visit_all(self, fuel: nat, cs: Seq<CategorizedConstraintView>, n: nat) -> (
        Result<(), ErrorView>,
        SolverView,
    )
        decreases fuel, 2nat, n,
    {
        if n == 0 || n > cs.len() {
            (Ok(()), self)
        } else {
            let (before, s1) = self.visit_all(fuel, cs, (n - 1) as nat);
            match before {
                Err(e) => (Err(e), s1),
                Ok(_) => s1.visit(fuel, cs[n - 1]),
            }
        }
    }

    /// Decomposes `r ≡ s` and visits what remains of it.
    pub open spec fn revisit(self, fuel: nat, r: TermView, s: TermView, j: JustificationView) -> (
        Result<(), ErrorView>,
        SolverView,
    )
        decreases fuel, 3nat, 0nat,
    {
        let (simplified, s1) = self.simplify(REDUCTION_LIMIT as nat, r, s, j);
        match simplified {
            Err(e) => (Err(e), s1),
            Ok(cs) => s1.visit_all(fuel, cs, cs.len()),
        }
    }

    /// What visiting the constraint `r ≡ s` of the given category does to the state.
    ///
    /// A constraint that waits for no metavariable should not have come this
    /// far: it is an error, reported with its justification, and nothing is
    /// recorded. A constraint that waits for a solved metavariable has the
    /// solution put in and is decomposed again. A pattern constraint solves
    /// its metavariable, and the constraints parked under it are visited
    /// again. Any other is parked.
    pub open spec fn visit_unification(
        self,
        fuel: nat,
        r: TermView,
        s: TermView,
        j: JustificationView,
        category: ConstraintCategory,
    ) -> (Result<(), ErrorView>, SolverView)
        decreases fuel, 0nat, 0nat,
    {
        match self.pivot(r, s) {
            None => (Err(self.mismatch(j)), self),
            Some(meta) => {
                let m = meta_number(meta);
                if self.solutions.contains_key(m) {
                    if fuel == 0 {
                        (Err(self.mismatch(j)), self)
                    } else {
                        let (t, j_m) = self.solutions[m];
                        self.revisit(
                            (fuel - 1) as nat,
                            r.instantiate_meta(m, t),
                            s.instantiate_meta(m, t),
                            j.join(j_m),
                        )
                    }
                } else if category == ConstraintCategory::Pattern && (is_pattern(r) || is_pattern(s)) {
                    let s1 = if is_pattern(r) {
                        self.solved(r, s, j)
                    } else {
                        self.solved(s, r, j)
                    };
                    let key = if is_pattern(r) {
                        head_meta(r)
                    } else {
                        head_meta(s)
                    };
                    if !s1.parked.contains_key(key) {
                        (Ok(()), s1)
                    } else if fuel == 0 {
                        (Err(s1.mismatch(j)), s1)
                    } else {
                        s1.visit_all((fuel - 1) as nat, s1.parked[key], s1.parked[key].len())
                    }
                } else {
                    let kept = if category == ConstraintCategory::Pattern {
                        ConstraintCategory::FlexRigid
                    } else {
                        category
                    };
                    (
                        Ok(()),
                        self.park(
                            m,
                            CategorizedConstraintView {
                                category: kept,
                                constraint: ConstraintView::Unification(r, s, j),
                            },
                        ),
                    )
                }
            },
        }
    }

    /// Whether the metavariables at the heads of `t` and `u` have the same
    /// solution, or both none.
    pub open spec fn consistent(self, t: TermView, u: TermView) -> bool {
        let a = head_meta(t);
        let b = head_meta(u);
        if self.solutions.contains_key(a) {
            self.solutions.contains_key(b) && self.solutions[a].0.same(self.solutions[b].0)
        } else {
            !self.solutions.contains_key(b)
        }
    }

    /// What `solve` does, with `steps` visits to spare that leave the queue
    /// no shorter than it was before the visited constraint was taken: such
    /// a visit has parked a constraint again. Taking a constraint that is
    /// met, solved or found consistent shortens the queue and costs nothing.
    pub open spec fn solve_within(self, steps: nat) -> (Result<(), ErrorView>, SolverView)
        decreases steps, self.queue.len(),
    {
        if self.queue.len() == 0 {
            (Ok(()), self)
        } else {
            let c = self.queue[0];
            let s1 = SolverView { queue: self.queue.drop_first(), ..self };
            match c.constraint {
                ConstraintView::Choice(_) => (Err(ErrorView::UnsupportedChoice), s1),
                ConstraintView::Unification(t, u, j) => if c.category == ConstraintCategory::FlexFlex
                    && t.head_is_meta() && u.head_is_meta() {
                    if s1.consistent(t, u) {
                        s1.solve_within(steps)
                    } else {
                        (Err(s1.mismatch(j)), s1)
                    }
                } else {
                    let (visited, s2) = s1.visit_unification(
                        REDUCTION_LIMIT as nat,
                        t,
                        u,
                        j,
                        c.category,
                    );
                    match visited {
                        Err(e) => (Err(e), s2),
                        Ok(_) => if s2.queue.len() < self.queue.len() {
                            s2.solve_within(steps)
                        } else if steps == 0 {
                            (Err(s2.mismatch(j)), s2)
                        } else {
                            s2.solve_within((steps - 1) as nat)
                        },
                    }
                },
            }
        }
    }

    /// The solver that has taken in the first `n` of the constraints `cs`.
    pub open spec fn intake(self, cs: Seq<ConstraintView>, n: nat) -> (
        Result<(), ErrorView>,
        SolverView,
    )
        decreases n,
    {
        if n == 0 || n > cs.len() {
            (Ok(()), self)
        } else {
            let (before, s1) = self.intake(cs, (n - 1) as nat);
            match before {
                Err(e) => (Err(e), s1),
                Ok(_) => match cs[n - 1] {
                    ConstraintView::Unification(t, u, j) => s1.revisit(REDUCTION_LIMIT as nat, t, u, j),
                    ConstraintView::Choice(_) => s1.visit(REDUCTION_LIMIT as nat, cs[n - 1].categorize()),
                },
            }
        }
    }

    /// The solver with nothing to do, over the context `cx`.
    pub open spec fn empty(cx: TyCtxtView) -> SolverView {
        SolverView { cx, queue: Seq::empty(), parked: Map::empty(), solutions: Map::empty() }
    }
}


/// Replaces every metavariable of `t` by its solution in `subst_map`; fails
/// at the first metavariable that has none.
pub fn replace_metavars(t: Term, subst_map: &HashMap<usize, (Term, Justification)>) -> (r: Result<
    Term,
    Error,
>)
    ensures
        result_view(r) == metavars_replaced(t@, solutions_view(subst_map@)),
    decreases t,
{
    proof {
        reveal_with_fuel(term_view, 2);
    }
    match t {
        Term::App { fun, arg, span } => {
            let f = replace_metavars(*fun, subst_map)?;
            let a = replace_metavars(*arg, subst_map)?;
            Ok(Term::App { fun: Box::new(f), arg: Box::new(a), span })
        },
        Term::Forall { binder, term, span } => {
            let b = subst_meta_binder(binder, subst_map)?;
            let body = replace_metavars(*term, subst_map)?;
            Ok(Term::Forall { binder: b, term: Box::new(body), span })
        },
        Term::Lambda { binder, body, span } => {
            let b = subst_meta_binder(binder, subst_map)?;
            let inner = replace_metavars(*body, subst_map)?;
            Ok(Term::Lambda { binder: b, body: Box::new(inner), span })
        },
        Term::Var { name: Name::Meta { number, span, ty } } => {
            match subst_map.get(&number) {
                None => Err(Error::UnsolvedMeta(Name::Meta { number, span, ty })),
                Some(x) => Ok(x.0.clone()),
            }
        },
        other => Ok(other),
    }
}

/// Replaces every metavariable in the type of the binder by its solution.
pub fn subst_meta_binder(b: Binder, subst_map: &HashMap<usize, (Term, Justification)>) -> (r:
    Result<Binder, Error>)
    ensures
        match r {
            Ok(out) => binder_metavars_replaced(b@, solutions_view(subst_map@)) == Ok::<
                BinderView,
                ErrorView,
            >(out@),
            Err(e) => binder_metavars_replaced(b@, solutions_view(subst_map@)) == Err::<
                BinderView,
                ErrorView,
            >(e@),
        },
    decreases b,
{
    let Binder { name, ty } = b;
    let ty = replace_metavars(*ty, subst_map)?;
    Ok(Binder { name, ty: Box::new(ty) })
}

/// Replaces every solved metavariable of `t` by its solution and leaves the others.
pub fn apply_solutions(t: &Term, subst_map: &HashMap<usize, (Term, Justification)>) -> (r: Term)
    ensures
        r@ == solutions_applied(t@, solutions_view(subst_map@)),
    decreases t,
{
    proof {
        reveal_with_fuel(term_view, 2);
    }
    match t {
        Term::App { fun, arg, span } => Term::App {
            fun: Box::new(apply_solutions(fun, subst_map)),
            arg: Box::new(apply_solutions(arg, subst_map)),
            span: *span,
        },
        Term::Forall { binder, term, span } => Term::Forall {
            binder: Binder {
                name: binder.name.clone(),
                ty: Box::new(apply_solutions(&binder.ty, subst_map)),
            },
            term: Box::new(apply_solutions(term, subst_map)),
            span: *span,
        },
        Term::Lambda { binder, body, span } => Term::Lambda {
            binder: Binder {
                name: binder.name.clone(),
                ty: Box::new(apply_solutions(&binder.ty, subst_map)),
            },
            body: Box::new(apply_solutions(body, subst_map)),
            span: *span,
        },
        Term::Var { name: Name::Meta { number, .. } } => {
            match subst_map.get(number) {
                None => t.clone(),
                Some(x) => x.0.clone(),
            }
        },
        _ => t.clone(),
    }
}

/// The number of a metavariable; 0 for any other name.
pub fn meta_number_of(n: &Name) -> (r: usize)
    ensures
        r == meta_number(n@),
{
    match n {
        Name::Meta { number, .. } => *number,
        _ => 0,
    }
}

fn make_pairs(ts: &Vec<Term>, us: &Vec<Term>, j: &Justification) -> (r: Vec<CategorizedConstraint>)
    ensures
        r.deep_view() == pairs(
            ts.deep_view(),
            us.deep_view(),
            j@,
            min_len(ts.deep_view(), us.deep_view()),
        ),
{
    let limit = if ts.len() <= us.len() {
        ts.len()
    } else {
        us.len()
    };
    let mut out = empty_list();
    let mut n: usize = 0;
    while n < limit
        invariant
            n <= limit,
            limit <= ts.len(),
            limit <= us.len(),
            out.deep_view() == pairs(ts.deep_view(), us.deep_view(), j@, n as nat),
        decreases limit - n,
    {
        let ghost cur = out.deep_view();
        let c = Constraint::Unification(ts[n].clone(), us[n].clone(), j.clone()).categorize();
        out.push(c);
        assert(out.deep_view() =~= cur.push(c@));
        n += 1;
    }
    out
}

fn collect_locals(args: &Vec<Term>) -> (r: Vec<Name>)
    ensures
        r.deep_view() == local_names(args.deep_view(), args.len() as nat),
{
    let mut out: Vec<Name> = Vec::new();
    assert(out.deep_view() =~= Seq::<NameView>::empty());
    let mut n: usize = 0;
    while n < args.len()
        invariant
            n <= args.len(),
            out.deep_view() == local_names(args.deep_view(), n as nat),
        decreases args.len() - n,
    {
        match &args[n] {
            Term::Var { name } => {
                if name.is_local() {
                    let ghost cur = out.deep_view();
                    out.push(name.clone());
                    assert(out.deep_view() =~= cur.push(name@));
                }
            },
            _ => {},
        }
        n += 1;
    }
    out
}

impl<'tcx> Solver<'tcx> {
    fn empty(ty_cx: &'tcx mut TyCtxt) -> (r: Solver<'tcx>)
        ensures
            r@ == SolverView::empty(old(ty_cx)@),
            *final(ty_cx) == *final(r.ty_cx),
    {
        let r = Solver {
            ty_cx,
            constraints: ConstraintQueue::new(),
            constraint_mapping: HashMap::new(),
            solution_mapping: HashMap::new(),
            choice_stack: Vec::new(),
        };
        assert(r@.parked =~= Map::empty());
        assert(r@.solutions =~= Map::empty());
        r
    }

    /// The solution recorded for the metavariable `name`, if there is one.
    pub fn solution_for(&self, name: &Name) -> (r: Option<(Term, Justification)>)
        ensures
            r.deep_view() == (if name@ is Meta && self@.solutions.contains_key(meta_number(name@)) {
                Some(self@.solutions[meta_number(name@)])
            } else {
                None
            }),
    {
        match name {
            Name::Meta { number, .. } => self.solution_of(*number),
            _ => None,
        }
    }

    fn solution_of(&self, m: usize) -> (r: Option<(Term, Justification)>)
        ensures
            r.deep_view() == (if self@.solutions.contains_key(m) {
                Some(self@.solutions[m])
            } else {
                None
            }),
    {
        match self.solution_mapping.get(&m) {
            None => None,
            Some(x) => Some((x.0.clone(), x.1.clone())),
        }
    }

    fn explain(&self, t: &Term) -> (r: Term)
        ensures
            r@ == self@.explain(t@),
    {
        let replaced = apply_solutions(t, &self.solution_mapping);
        match self.ty_cx.eval(&replaced) {
            Ok(normal) => normal,
            Err(_) => replaced,
        }
    }

    /// Puts the solutions found so far into the terms of the justification
    /// and reduces them, so that a report shows the simplest terms.
    fn eval_justification(&self, j: Justification) -> (r: Justification)
        ensures
            r@ == self@.eval_justification(j@),
        decreases j,
    {
        match j {
            Justification::Asserted(by) => Justification::Asserted(
                match by {
                    AssertedBy::Application(span, t, u) => {
                        let t = self.explain(&t);
                        let u = self.explain(&u);
                        AssertedBy::Application(span, t, u)
                    },
                    AssertedBy::ExpectedFound(t, u) => {
                        let t = self.explain(&t);
                        let u = self.explain(&u);
                        AssertedBy::ExpectedFound(t, u)
                    },
                },
            ),
            Justification::Assumption => Justification::Assumption,
            Justification::Join(j1, j2) => {
                let j1 = self.eval_justification(*j1);
                let j2 = self.eval_justification(*j2);
                Justification::Join(Box::new(j1), Box::new(j2))
            },
        }
    }

    fn mismatch(&self, j: Justification) -> (r: Error)
        ensures
            r@ == self@.mismatch(j@),
    {
        Error::Justification(self.eval_justification(j))
    }

    /// Reports the constraint that `just` justifies as one that cannot be met.
    pub fn resolve(&self, just: Justification) -> (r: Result<(), Error>)
        ensures
            result_view(r) == Err::<(), ErrorView>(self@.mismatch(just@)),
    {
        Err(self.mismatch(just))
    }

    fn simplify_within(&mut self, fuel: usize, t: Term, u: Term, j: Justification) -> (r: Result<
        Vec<CategorizedConstraint>,
        Error,
    >)
        ensures
            *final(final(self).ty_cx) == *final(old(self).ty_cx),
            (result_view(r), final(self)@) == old(self)@.simplify(fuel as nat, t@, u@, j@),
        decreases fuel, t@.size() + u@.size(), 1nat,
    {
        if t.same(&u) {
            return Ok(empty_list());
        }
        if self.ty_cx.is_bi_reducible(&t) {
            if fuel == 0 {
                return Err(self.mismatch(j));
            }
            return match self.ty_cx.eval(&t) {
                Ok(next) => self.simplify_within(fuel - 1, next, u, j),
                Err(_) => Err(self.mismatch(j)),
            };
        }
        if self.ty_cx.is_bi_reducible(&u) {
            if fuel == 0 {
                return Err(self.mismatch(j));
            }
            return match self.ty_cx.eval(&u) {
                Ok(next) => self.simplify_within(fuel - 1, t, next, j),
                Err(_) => Err(self.mismatch(j)),
            };
        }
        if t.head_is_local() && u.head_is_local() && t.head().same(&u.head()) {
            return self.simplify_args(fuel, &t, &u, &j);
        }
        if t.head_is_global() && u.head_is_global() && t.head().same(&u.head()) {
            let f = t.head();
            let reducible = match &f {
                Term::Var { name } => self.ty_cx.head_reducible(name),
                _ => false,
            };
            if !reducible {
                return Ok(make_pairs(&t.args(), &u.args(), &j));
            } else if !t.has_meta() && !u.has_meta() {
                return self.simplify_args(fuel, &t, &u, &j);
            } else {
                let c = CategorizedConstraint {
                    category: ConstraintCategory::FlexRigid,
                    constraint: Constraint::Unification(t, u, j),
                };
                let out = pushed(empty_list(), c);
                assert(out.deep_view() =~= seq![c@]);
                return Ok(out);
            }
        }
        match (t, u) {
            (
                Term::Forall { binder: binder1, term: term1, .. },
                Term::Forall { binder: binder2, term: term2, .. },
            ) => self.simplify_binders(fuel, binder1, *term1, binder2, *term2, j),
            (
                Term::Lambda { binder: binder1, body: body1, .. },
                Term::Lambda { binder: binder2, body: body2, .. },
            ) => self.simplify_binders(fuel, binder1, *body1, binder2, *body2, j),
            (t, u) => {
                if self.ty_cx.is_stuck(&t).is_some() || self.ty_cx.is_stuck(&u).is_some() {
                    let c = Constraint::Unification(t, u, j).categorize();
                    let out = pushed(empty_list(), c);
                    assert(out.deep_view() =~= seq![c@]);
                    Ok(out)
                } else {
                    Err(self.mismatch(j))
                }
            },
        }
    }

    fn simplify_args(&mut self, fuel: usize, t: &Term, u: &Term, j: &Justification) -> (r: Result<
        Vec<CategorizedConstraint>,
        Error,
    >)
        ensures
            *final(final(self).ty_cx) == *final(old(self).ty_cx),
            (result_view(r), final(self)@) == old(self)@.simplify_spines(
                fuel as nat,
                t@.args(),
                u@.args(),
                j@,
                min_len(t@.args(), u@.args()),
            ),
        decreases fuel, t@.size() + u@.size(), 0nat,
    {
        let t_args = t.args();
        let u_args = u.args();
        let n = if t_args.len() <= u_args.len() {
            t_args.len()
        } else {
            u_args.len()
        };
        proof {
            crate::term::lemma_args_size(t@);
            crate::term::lemma_args_size(u@);
        }
        self.simplify_spines(fuel, &t_args, &u_args, j, n)
    }

    fn simplify_spines(
        &mut self,
        fuel: usize,
        ts: &Vec<Term>,
        us: &Vec<Term>,
        j: &Justification,
        n: usize,
    ) -> (r: Result<Vec<CategorizedConstraint>, Error>)
        ensures
            *final(final(self).ty_cx) == *final(old(self).ty_cx),
            (result_view(r), final(self)@) == old(self)@.simplify_spines(
                fuel as nat,
                ts.deep_view(),
                us.deep_view(),
                j@,
                n as nat,
            ),
        decreases fuel, terms_size(ts.deep_view()) + terms_size(us.deep_view()), n + 1,
    {
        if n == 0 || n > ts.len() || n > us.len() {
            Ok(empty_list())
        } else {
            match self.simplify_spines(fuel, ts, us, j, n - 1) {
                Err(e) => Err(e),
                Ok(cs) => {
                    proof {
                        crate::term::lemma_term_in_size(ts.deep_view(), n - 1);
                        crate::term::lemma_term_in_size(us.deep_view(), n - 1);
                    }
                    match self.simplify_within(fuel, ts[n - 1].clone(), us[n - 1].clone(), j.clone()) {
                        Err(e) => Err(e),
                        Ok(more) => Ok(joined(cs, more)),
                    }
                },
            }
        }
    }

    fn simplify_binders(
        &mut self,
        fuel: usize,
        b1: Binder,
        body1: Term,
        b2: Binder,
        body2: Term,
        j: Justification,
    ) -> (r: Result<Vec<CategorizedConstraint>, Error>)
        ensures
            *final(final(self).ty_cx) == *final(old(self).ty_cx),
            (result_view(r), final(self)@) == old(self)@.simplify_binders(
                fuel as nat,
                b1@,
                body1@,
                b2@,
                body2@,
                j@,
            ),
        decreases fuel, b1@.ty.size() + body1@.size() + b2@.ty.size() + body2@.size(), 0nat,
    {
        if self.ty_cx.local_counter == usize::MAX {
            return Err(Error::TypeCk(Box::new(crate::typeck::Error::OutOfNames)));
        }
        let local = self.ty_cx.local(&b1).to_term();
        proof {
            crate::term::lemma_size_positive(body1@);
            crate::term::lemma_size_positive(body2@);
            crate::term::lemma_size_positive(*b1@.ty);
            crate::term::lemma_size_positive(*b2@.ty);
            crate::term::lemma_open_size(body1@, local@, 0);
            crate::term::lemma_open_size(body2@, local@, 0);
        }
        match self.simplify_within(fuel, *b1.ty, *b2.ty, j.clone()) {
            Err(e) => Err(e),
            Ok(cs) => {
                let t_sub = body1.open_with(&local, 0);
                let u_sub = body2.open_with(&local, 0);
                match self.simplify_within(fuel, t_sub, u_sub, j) {
                    Err(e) => Err(e),
                    Ok(more) => Ok(joined(cs, more)),
                }
            },
        }
    }

    /// Decomposes the requirement that `t` and `u` be equal into the
    /// constraints that remain of it.
    ///
    /// Equal terms leave nothing. A term that can be reduced is reduced
    /// first, the left one before the right one. Two spines with the same
    /// local at the head are decomposed argument by argument, and what
    /// remains of each pair is decomposed in turn. Two spines with the same
    /// global at the head are paired argument by argument if reduction
    /// cannot begin at that global; if it can, but neither spine can take a
    /// step, they are decomposed as spines with a local at the head are,
    /// unless a metavariable occurs in them: then the constraint waits as a
    /// flex-rigid one. Two function types, or two lambdas, are decomposed
    /// into their binder types and their bodies under one fresh local. What
    /// waits for a metavariable remains as one categorized constraint.
    /// Anything else cannot be met. Taking terms apart is not limited; a
    /// constraint whose sides are still being reduced after
    /// `REDUCTION_LIMIT` reductions cannot be met either.
    pub fn simplify(&mut self, t: Term, u: Term, j: Justification) -> (r: Result<
        Vec<CategorizedConstraint>,
        Error,
    >)
        ensures
            *final(final(self).ty_cx) == *final(old(self).ty_cx),
            (result_view(r), final(self)@) == old(self)@.simplify(
                REDUCTION_LIMIT as nat,
                t@,
                u@,
                j@,
            ),
    {
        self.simplify_within(REDUCTION_LIMIT, t, u, j)
    }
}


impl<'tcx> Solver<'tcx> {
    fn pivot(&self, r: &Term, s: &Term) -> (m: Option<Name>)
        ensures
            m.deep_view() == self@.pivot(r@, s@),
    {
        match (self.ty_cx.is_stuck(r), self.ty_cx.is_stuck(s)) {
            (Some(m1), Some(m2)) => {
                if self.solution_mapping.get(&meta_number_of(&m1)).is_some() {
                    Some(m1)
                } else {
                    Some(m2)
                }
            },
            (Some(m), None) => Some(m),
            (None, Some(m)) => Some(m),
            (None, None) => None,
        }
    }

    fn park(&mut self, m: usize, c: CategorizedConstraint)
        ensures
            *final(final(self).ty_cx) == *final(old(self).ty_cx),
            final(self)@ == old(self)@.park(m, c@),
    {
        let ghost before = self@;
        let mut cs = match self.constraint_mapping.remove(&m) {
            None => empty_list(),
            Some(cs) => cs,
        };
        let ghost held = cs.deep_view();
        cs.push(c.clone());
        assert(cs.deep_view() =~= held.push(c@));
        self.constraint_mapping.insert(m, cs);
        self.constraints.push(c);
        assert(self@.parked =~= before.park(m, c@).parked);
    }

    fn solve_pattern(&mut self, side: &Term, other: Term, j: Justification) -> (key: usize)
        ensures
            *final(final(self).ty_cx) == *final(old(self).ty_cx),
            final(self)@ == old(self)@.solved(side@, other@, j@),
            key == head_meta(side@),
    {
        let ghost before = self@;
        let head = side.head();
        let key = match &head {
            Term::Var { name } => meta_number_of(name),
            _ => 0,
        };
        let locals = collect_locals(&side.args());
        let solution = Term::abstract_lambda(locals, other);
        self.solution_mapping.insert(key, (solution, j));
        assert(self@.solutions =~= before.solved(side@, other@, j@).solutions);
        key
    }

    fn visit_within(&mut self, fuel: usize, c: CategorizedConstraint) -> (r: Result<(), Error>)
        ensures
            *final(final(self).ty_cx) == *final(old(self).ty_cx),
            (result_view(r), final(self)@) == old(self)@.visit(fuel as nat, c@),
        decreases fuel, 1nat, 0nat,
    {
        let CategorizedConstraint { category, constraint } = c;
        match constraint {
            Constraint::Unification(t, u, j) => self.visit_unification_within(fuel, t, u, j, category),
            Constraint::Choice(_) => Err(Error::UnsupportedChoice),
        }
    }

    fn visit_all(&mut self, fuel: usize, cs: &Vec<CategorizedConstraint>) -> (r: Result<(), Error>)
        ensures
            *final(final(self).ty_cx) == *final(old(self).ty_cx),
            (result_view(r), final(self)@) == old(self)@.visit_all(
                fuel as nat,
                cs.deep_view(),
                cs.len() as nat,
            ),
        decreases fuel, 2nat,
    {
        let mut n: usize = 0;
        while n < cs.len()
            invariant
                n <= cs.len(),
                *final(self.ty_cx) == *final(old(self).ty_cx),
                (Ok::<(), ErrorView>(()), self@) == old(self)@.visit_all(
                    fuel as nat,
                    cs.deep_view(),
                    n as nat,
                ),
            decreases cs.len() - n,
        {
            match self.visit_within(fuel, cs[n].clone()) {
                Err(e) => {
                    proof {
                        lemma_visit_all_stops(
                            old(self)@,
                            fuel as nat,
                            cs.deep_view(),
                            (n + 1) as nat,
                            cs.len() as nat,
                        );
                    }
                    return Err(e);
                },
                Ok(_) => {},
            }
            n += 1;
        }
        Ok(())
    }

    fn revisit(&mut self, fuel: usize, r: Term, s: Term, j: Justification) -> (res: Result<
        (),
        Error,
    >)
        ensures
            *final(final(self).ty_cx) == *final(old(self).ty_cx),
            (result_view(res), final(self)@) == old(self)@.revisit(fuel as nat, r@, s@, j@),
        decreases fuel, 3nat, 0nat,
    {
        match self.simplify_within(REDUCTION_LIMIT, r, s, j) {
            Err(e) => Err(e),
            Ok(cs) => self.visit_all(fuel, &cs),
        }
    }

    fn visit_unification_within(
        &mut self,
        fuel: usize,
        r: Term,
        s: Term,
        j: Justification,
        category: ConstraintCategory,
    ) -> (res: Result<(), Error>)
        ensures
            *final(final(self).ty_cx) == *final(old(self).ty_cx),
            (result_view(res), final(self)@) == old(self)@.visit_unification(
                fuel as nat,
                r@,
                s@,
                j@,
                category,
            ),
        decreases fuel, 0nat, 0nat,
    {
        match self.pivot(&r, &s) {
            None => Err(self.mismatch(j)),
            Some(meta) => {
                let m = meta_number_of(&meta);
                match self.solution_of(m) {
                    Some((t, j_m)) => {
                        if fuel == 0 {
                            Err(self.mismatch(j))
                        } else {
                            let r2 = r.replace_meta(m, &t);
                            let s2 = s.replace_meta(m, &t);
                            self.revisit(fuel - 1, r2, s2, j.join(j_m))
                        }
                    },
                    None => {
                        let left = term_is_pattern(&r);
                        let right = term_is_pattern(&s);
                        if category == ConstraintCategory::Pattern && (left || right) {
                            let key = if left {
                                self.solve_pattern(&r, s, j.clone())
                            } else {
                                self.solve_pattern(&s, r, j.clone())
                            };
                            let parked = match self.constraint_mapping.get(&key) {
                                None => None,
                                Some(cs) => Some(clone_constraints(cs)),
                            };
                            match parked {
                                None => Ok(()),
                                Some(cs) => {
                                    if fuel == 0 {
                                        Err(self.mismatch(j))
                                    } else {
                                        self.visit_all(fuel - 1, &cs)
                                    }
                                },
                            }
                        } else {
                            let kept = if category == ConstraintCategory::Pattern {
                                ConstraintCategory::FlexRigid
                            } else {
                                category
                            };
                            self.park(
                                m,
                                CategorizedConstraint {
                                    category: kept,
                                    constraint: Constraint::Unification(r, s, j),
                                },
                            );
                            Ok(())
                        }
                    },
                }
            },
        }
    }

    /// Visits one constraint: a unification as `visit_unification` does; a choice is refused.
    pub fn visit(&mut self, c: CategorizedConstraint) -> (r: Result<(), Error>)
        ensures
            *final(final(self).ty_cx) == *final(old(self).ty_cx),
            (result_view(r), final(self)@) == old(self)@.visit(REDUCTION_LIMIT as nat, c@),
    {
        self.visit_within(REDUCTION_LIMIT, c)
    }

    /// Visits the constraint `r ≡ s` of the given category.
    ///
    /// A constraint neither side of which waits for a metavariable should
    /// have been met or refused by `simplify`: it fails with the error that
    /// reports its justification, and the solver is left as it was. If the
    /// metavariable that the constraint waits for is solved, the solution is
    /// put into both sides and the result decomposed and visited. Else a
    /// pattern constraint solves the metavariable at the head of its pattern
    /// side, and the constraints parked under it are visited again. Any
    /// other constraint is parked under the metavariable and put into the queue.
    pub fn visit_unification(
        &mut self,
        r: Term,
        s: Term,
        j: Justification,
        category: ConstraintCategory,
    ) -> (res: Result<(), Error>)
        ensures
            *final(final(self).ty_cx) == *final(old(self).ty_cx),
            (result_view(res), final(self)@) == old(self)@.visit_unification(
                REDUCTION_LIMIT as nat,
                r@,
                s@,
                j@,
                category,
            ),
    {
        self.visit_unification_within(REDUCTION_LIMIT, r, s, j, category)
    }

    fn consistent(&self, t: &Term, u: &Term) -> (r: bool)
        ensures
            r == self@.consistent(t@, u@),
    {
        let a = match &t.head() {
            Term::Var { name } => meta_number_of(name),
            _ => 0,
        };
        let b = match &u.head() {
            Term::Var { name } => meta_number_of(name),
            _ => 0,
        };
        match self.solution_mapping.get(&a) {
            Some(x) => match self.solution_mapping.get(&b) {
                Some(y) => x.0.same(&y.0),
                None => false,
            },
            None => self.solution_mapping.get(&b).is_none(),
        }
    }

    fn solve_within(&mut self, steps: usize) -> (r: Result<(), Error>)
        ensures
            *final(final(self).ty_cx) == *final(old(self).ty_cx),
            (result_view(r), final(self)@) == old(self)@.solve_within(steps as nat),
    {
        let mut left = steps;
        loop
            invariant
                *final(self.ty_cx) == *final(old(self).ty_cx),
                old(self)@.solve_within(steps as nat) == self@.solve_within(left as nat),
            decreases left, self@.queue.len(),
        {
            let waiting = self.constraints.len();
            match self.constraints.pop() {
                None => {
                    return Ok(());
                },
                Some(c) => {
                    let CategorizedConstraint { category, constraint } = c;
                    match constraint {
                        Constraint::Choice(_) => {
                            return Err(Error::UnsupportedChoice);
                        },
                        Constraint::Unification(t, u, j) => {
                            if category == ConstraintCategory::FlexFlex && t.head_is_meta()
                                && u.head_is_meta() {
                                if !self.consistent(&t, &u) {
                                    return Err(self.mismatch(j));
                                }
                            } else {
                                match self.visit_unification_within(
                                    REDUCTION_LIMIT,
                                    t,
                                    u,
                                    j.clone(),
                                    category,
                                ) {
                                    Err(e) => {
                                        return Err(e);
                                    },
                                    Ok(_) => {
                                        if self.constraints.len() >= waiting {
                                            if left == 0 {
                                                return Err(self.mismatch(j));
                                            }
                                            left = left - 1;
                                        }
                                    },
                                }
                            }
                        },
                    }
                },
            }
        }
    }

    fn intake(&mut self, cs: &Vec<Constraint>) -> (r: Result<(), Error>)
        ensures
            *final(final(self).ty_cx) == *final(old(self).ty_cx),
            (result_view(r), final(self)@) == old(self)@.intake(cs.deep_view(), cs.len() as nat),
    {
        let mut n: usize = 0;
        while n < cs.len()
            invariant
                n <= cs.len(),
                *final(self.ty_cx) == *final(old(self).ty_cx),
                (Ok::<(), ErrorView>(()), self@) == old(self)@.intake(cs.deep_view(), n as nat),
            decreases cs.len() - n,
        {
            let taken = match &cs[n] {
                Constraint::Unification(t, u, j) => self.revisit(
                    REDUCTION_LIMIT,
                    t.clone(),
                    u.clone(),
                    j.clone(),
                ),
                Constraint::Choice(_) => self.visit_within(REDUCTION_LIMIT, cs[n].clone().categorize()),
            };
            match taken {
                Err(e) => {
                    proof {
                        lemma_intake_stops(
                            old(self)@,
                            cs.deep_view(),
                            (n + 1) as nat,
                            cs.len() as nat,
                        );
                    }
                    return Err(e);
                },
                Ok(_) => {},
            }
            n += 1;
        }
        Ok(())
    }

    /// Sets up a solver over `ty_cx` and takes in the constraints `cs`, one
    /// after the other: a unification is decomposed and what remains of it
    /// visited; a choice is categorized and visited.
    pub fn new(ty_cx: &'tcx mut TyCtxt, cs: ConstraintSeq) -> (r: Result<Solver<'tcx>, Error>)
        ensures
            match r {
                Ok(solver) => SolverView::empty(old(ty_cx)@).intake(
                    cs.deep_view(),
                    cs.len() as nat,
                ) == (Ok::<(), ErrorView>(()), solver@) && *final(ty_cx) == *final(solver.ty_cx),
                Err(e) => SolverView::empty(old(ty_cx)@).intake(cs.deep_view(), cs.len() as nat).0
                    == Err::<(), ErrorView>(e@) && final(ty_cx)@ == SolverView::empty(
                    old(ty_cx)@,
                ).intake(cs.deep_view(), cs.len() as nat).1.cx,
            },
    {
        let mut solver = Solver::empty(ty_cx);
        match solver.intake(&cs) {
            Ok(_) => Ok(solver),
            Err(e) => Err(e),
        }
    }

    /// Works through the queue until it is empty and hands out the solutions.
    ///
    /// A flex-flex constraint is left alone if the metavariables at its two
    /// heads have the same solution, or both none, and cannot be met
    /// otherwise. Every other constraint is visited again. A choice is
    /// refused. A constraint that is met, solved or found consistent leaves
    /// the queue shorter; a visit that leaves the queue no shorter has parked
    /// a constraint again, and after `SOLVE_LIMIT` such visits the constraint
    /// last visited cannot be met.
    pub fn solve(self) -> (r: Result<HashMap<usize, (Term, Justification)>, Error>)
        ensures
            match r {
                Ok(solutions) => self@.solve_within(SOLVE_LIMIT as nat).0 is Ok
                    && solutions_view(solutions@) == self@.solve_within(
                    SOLVE_LIMIT as nat,
                ).1.solutions,
                Err(e) => self@.solve_within(SOLVE_LIMIT as nat).0 == Err::<(), ErrorView>(e@),
            },
            final(self.ty_cx)@ == self@.solve_within(SOLVE_LIMIT as nat).1.cx,
    {
        let mut solver = self;
        match solver.solve_within(SOLVE_LIMIT) {
            Ok(_) => Ok(solver.solution_mapping),
            Err(e) => Err(e),
        }
    }
}


/// The first `n` constructors with the metavariables of their types replaced.
pub open spec fn ctors_replaced(ctors: Seq<(NameView, TermView)>, solutions: Solutions, n: nat) -> Result<
    Seq<(NameView, TermView)>,
    ErrorView,
>
    decreases n,
{
    if n == 0 || n > ctors.len() {
        Ok(Seq::empty())
    } else {
        match ctors_replaced(ctors, solutions, (n - 1) as nat) {
            Err(e) => Err(e),
            Ok(before) => match metavars_replaced(ctors[n - 1].1, solutions) {
                Err(e) => Err(e),
                Ok(ty) => Ok(before.push((ctors[n - 1].0, ty))),
            },
        }
    }
}

/// The item with the metavariables of its terms replaced by their solutions.
pub open spec fn item_replaced(item: ItemView, solutions: Solutions) -> Result<ItemView, ErrorView> {
    match item {
        ItemView::Data(d) => match metavars_replaced(d.ty, solutions) {
            Err(e) => Err(e),
            Ok(ty) => match ctors_replaced(d.ctors, solutions, d.ctors.len()) {
                Err(e) => Err(e),
                Ok(ctors) => Ok(ItemView::Data(DataView { ty, ctors, ..d })),
            },
        },
        ItemView::Fn(f) => match metavars_replaced(f.ret_ty, solutions) {
            Err(e) => Err(e),
            Ok(ret_ty) => match metavars_replaced(f.body, solutions) {
                Err(e) => Err(e),
                Ok(body) => Ok(ItemView::Fn(FunctionView { ret_ty, body, ..f })),
            },
        },
        ItemView::Extern(x) => match metavars_replaced(x.term, solutions) {
            Err(e) => Err(e),
            Ok(term) => Ok(ItemView::Extern(ExternView { term, ..x })),
        },
    }
}

/// The first `n` items with their metavariables replaced.
pub open spec fn items_replaced(items: Seq<ItemView>, solutions: Solutions, n: nat) -> Result<
    Seq<ItemView>,
    ErrorView,
>
    decreases n,
{
    if n == 0 || n > items.len() {
        Ok(Seq::empty())
    } else {
        match items_replaced(items, solutions, (n - 1) as nat) {
            Err(e) => Err(e),
            Ok(before) => match item_replaced(items[n - 1], solutions) {
                Err(e) => Err(e),
                Ok(item) => Ok(before.push(item)),
            },
        }
    }
}

/// The module with the metavariables of every item replaced by their solutions.
pub open spec fn module_replaced(m: ModuleView, solutions: Solutions) -> Result<ModuleView, ErrorView> {
    match items_replaced(m.defs, solutions, m.defs.len()) {
        Err(e) => Err(e),
        Ok(defs) => Ok(ModuleView { defs, ..m }),
    }
}

fn replace_in_ctors(
    ctors: &Vec<(Name, Term)>,
    subst_map: &HashMap<usize, (Term, Justification)>,
    n: usize,
) -> (r: Result<Vec<(Name, Term)>, Error>)
    ensures
        result_view(r) == ctors_replaced(ctors.deep_view(), solutions_view(subst_map@), n as nat),
    decreases n,
{
    if n == 0 || n > ctors.len() {
        return Ok(empty_list());
    }
    let before = replace_in_ctors(ctors, subst_map, n - 1)?;
    let ty = replace_metavars(ctors[n - 1].1.clone(), subst_map)?;
    Ok(pushed(before, (ctors[n - 1].0.clone(), ty)))
}

/// Replaces the metavariables in the terms of an item by their solutions.
pub fn replace_metavars_in_item(item: &Item, subst_map: &HashMap<usize, (Term, Justification)>) -> (r:
    Result<Item, Error>)
    ensures
        result_view(r) == item_replaced(item@, solutions_view(subst_map@)),
{
    match item {
        Item::Data(d) => {
            let ty = replace_metavars(d.ty.clone(), subst_map)?;
            let ctors = replace_in_ctors(&d.ctors, subst_map, d.ctors.len())?;
            Ok(
                Item::Data(
                    Data {
                        span: d.span,
                        name: d.name.clone(),
                        parameters: crate::term::clone_names(&d.parameters),
                        ty,
                        ctors,
                    },
                ),
            )
        },
        Item::Fn(f) => {
            let ret_ty = replace_metavars(f.ret_ty.clone(), subst_map)?;
            let body = replace_metavars(f.body.clone(), subst_map)?;
            Ok(
                Item::Fn(
                    Function {
                        name: f.name.clone(),
                        args: crate::term::clone_names(&f.args),
                        ret_ty,
                        body,
                    },
                ),
            )
        },
        Item::Extern(x) => {
            let term = replace_metavars(x.term.clone(), subst_map)?;
            Ok(Item::Extern(Extern { span: x.span, name: x.name.clone(), term }))
        },
    }
}

fn replace_in_items(items: &Vec<Item>, subst_map: &HashMap<usize, (Term, Justification)>) -> (r:
    Result<Vec<Item>, Error>)
    ensures
        result_view(r) == items_replaced(
            items.deep_view(),
            solutions_view(subst_map@),
            items.len() as nat,
        ),
{
    let mut out: Vec<Item> = empty_list();
    let mut n: usize = 0;
    while n < items.len()
        invariant
            n <= items.len(),
            Ok::<Seq<ItemView>, ErrorView>(out.deep_view()) == items_replaced(
                items.deep_view(),
                solutions_view(subst_map@),
                n as nat,
            ),
        decreases items.len() - n,
    {
        match replace_metavars_in_item(&items[n], subst_map) {
            Err(e) => {
                proof {
                    lemma_items_replaced_stops(
                        items.deep_view(),
                        solutions_view(subst_map@),
                        (n + 1) as nat,
                        items.len() as nat,
                    );
                }
                return Err(e);
            },
            Ok(item) => {
                out = pushed(out, item);
            },
        }
        n += 1;
    }
    Ok(out)
}

/// Replaces the metavariables in every item of a module by their
/// solutions: the last step from the elaborated module to explicit core terms.
pub fn replace_metavars_in_module(
    module: &Module,
    subst_map: &HashMap<usize, (Term, Justification)>,
) -> (r: Result<Module, Error>)
    ensures
        result_view(r) == module_replaced(module@, solutions_view(subst_map@)),
{
    let defs = replace_in_items(&module.defs, subst_map)?;
    Ok(
        Module {
            file_name: module.file_name.clone(),
            name: module.name.clone(),
            defs,
            imports: crate::term::clone_names(&module.imports),
        },
    )
}


/// Once a constraint has failed to be taken in, the constraints behind it are not looked at.
pub proof fn lemma_intake_stops(s: SolverView, cs: Seq<ConstraintView>, k: nat, n: nat)
    requires
        k <= n <= cs.len(),
        s.intake(cs, k).0 is Err,
    ensures
        s.intake(cs, n) == s.intake(cs, k),
    decreases n,
{
    if n > k {
        lemma_intake_stops(s, cs, k, (n - 1) as nat);
    }
}


/// Once an item holds a metavariable without solution, the items behind it
/// are not looked at.
pub proof fn lemma_items_replaced_stops(items: Seq<ItemView>, solutions: Solutions, k: nat, n: nat)
    requires
        k <= n <= items.len(),
        items_replaced(items, solutions, k) is Err,
    ensures
        items_replaced(items, solutions, n) == items_replaced(items, solutions, k),
    decreases n,
{
    if n > k {
        lemma_items_replaced_stops(items, solutions, k, (n - 1) as nat);
    }
}


/// Once the visit of a constraint has failed, the constraints behind it are not visited.
pub proof fn lemma_visit_all_stops(
    s: SolverView,
    fuel: nat,
    cs: Seq<CategorizedConstraintView>,
    k: nat,
    n: nat,
)
    requires
        k <= n <= cs.len(),
        s.visit_all(fuel, cs, k).0 is Err,
    ensures
        s.visit_all(fuel, cs, n) == s.visit_all(fuel, cs, k),
    decreases n,
{
    if n > k {
        lemma_visit_all_stops(s, fuel, cs, k, (n - 1) as nat);
    }
}

} // verus!
