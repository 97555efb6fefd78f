//! Every justification that the solver hands out, in a solution or in an
//! error, goes back to the justifications of the constraints that it was given.

use vstd::prelude::*;
use crate::constraint::{
    is_pattern, AssertedByView, CategorizedConstraintView, ConstraintCategory, ConstraintView,
    JustificationView,
};
use crate::queue::{enqueue, lemma_position, position};
use crate::solver::{meta_number, pairs, ErrorView, SolverView};
use crate::term::{BinderView, TermView};
use crate::typeck::{TyCtxtView, REDUCTION_LIMIT};

verus! {

/// Whether `shown` is `given` with other terms at its leaves: the same tree
/// of joins, and at each leaf an assertion of the same kind, at the same
/// place if it has one.
pub open spec fn explains(shown: JustificationView, given: JustificationView) -> bool
    decreases shown,
{
    match (shown, given) {
        (
            JustificationView::Asserted(AssertedByView::Application(at, _, _)),
            JustificationView::Asserted(AssertedByView::Application(place, _, _)),
        ) => at == place,
        (
            JustificationView::Asserted(AssertedByView::ExpectedFound(_, _)),
            JustificationView::Asserted(AssertedByView::ExpectedFound(_, _)),
        ) => true,
        (JustificationView::Assumption, JustificationView::Assumption) => true,
        (JustificationView::Join(a, b), JustificationView::Join(c, d)) => explains(*a, *c)
            && explains(*b, *d),
        _ => false,
    }
}

/// Whether the justification `shown` explains one that is built from `given`.
pub open spec fn traces_to(shown: JustificationView, given: Set<JustificationView>) -> bool {
    exists|j: JustificationView| #[trigger] j.built_from(given) && explains(shown, j)
}

/// Whether the justification in the error, if it has one, traces to `given`.
pub open spec fn error_traces(e: ErrorView, given: Set<JustificationView>) -> bool {
    match e {
        ErrorView::Justification(j) => traces_to(j, given),
        ErrorView::Simplification(j) => traces_to(j, given),
        _ => true,
    }
}

/// Whether the justification of the constraint is built from `given`.
pub open spec fn constraint_justified(c: ConstraintView, given: Set<JustificationView>) -> bool {
    match c {
        ConstraintView::Unification(_, _, j) => j.built_from(given),
        ConstraintView::Choice(_) => true,
    }
}

/// Whether the justification of each of the constraints is built from `given`.
pub open spec fn all_justified(cs: Seq<CategorizedConstraintView>, given: Set<JustificationView>) -> bool {
    forall|i: int| 0 <= i < cs.len() ==> constraint_justified((#[trigger] cs[i]).constraint, given)
}

/// Whether every justification that the solver holds is built from `given`:
/// those of the constraints that wait or are parked, and those of the solutions.
pub open spec fn justified(s: SolverView, given: Set<JustificationView>) -> bool {
    &&& all_justified(s.queue, given)
    &&& forall|m: usize| s.parked.contains_key(m) ==> all_justified(#[trigger] s.parked[m], given)
    &&& forall|m: usize|
        s.solutions.contains_key(m) ==> (#[trigger] s.solutions[m]).1.built_from(given)
}

/// Whether two states of a solver differ in the type context at most.
pub open spec fn same_work(a: SolverView, b: SolverView) -> bool {
    a.queue == b.queue && a.parked == b.parked && a.solutions == b.solutions
}

/// Whether `j` is the justification of the constraint `c`.
pub open spec fn justifies(j: JustificationView, c: ConstraintView) -> bool {
    match c {
        ConstraintView::Unification(_, _, k) => k == j,
        ConstraintView::Choice(_) => false,
    }
}

/// The justifications of the given constraints.
pub open spec fn justifications_of(cs: Seq<ConstraintView>) -> Set<JustificationView> {
    Set::new(
        |j: JustificationView|
            exists|i: int| 0 <= i < cs.len() && #[trigger] justifies(j, cs[i]),
    )
}

/// A justification with its terms explained explains the justification.
pub proof fn lemma_eval_explains(s: SolverView, j: JustificationView)
    ensures
        explains(s.eval_justification(j), j),
    decreases j,
{
    match j {
        JustificationView::Join(a, b) => {
            lemma_eval_explains(s, *a);
            lemma_eval_explains(s, *b);
        },
        _ => {},
    }
}

/// The error that reports `j` traces to whatever `j` is built from.
pub proof fn lemma_mismatch_traces(s: SolverView, j: JustificationView, given: Set<JustificationView>)
    requires
        j.built_from(given),
    ensures
        error_traces(s.mismatch(j), given),
{
    lemma_eval_explains(s, j);
}

/// The constraints that pair two spines carry the justification that they were made with.
pub proof fn lemma_pairs_justified(
    ts: Seq<TermView>,
    us: Seq<TermView>,
    j: JustificationView,
    n: nat,
    given: Set<JustificationView>,
)
    requires
        j.built_from(given),
    ensures
        all_justified(pairs(ts, us, j, n), given),
    decreases n,
{
    if n > 0 {
        lemma_pairs_justified(ts, us, j, (n - 1) as nat, given);
    }
}

/// Decomposition hands on the justification that it was given: each
/// constraint that it leaves is built from `given`, an error of it traces to
/// `given`, and of the solver it changes the type context only.
pub proof fn lemma_simplify_justified(
    s: SolverView,
    fuel: nat,
    t: TermView,
    u: TermView,
    j: JustificationView,
    given: Set<JustificationView>,
)
    requires
        j.built_from(given),
    ensures
        same_work(s.simplify(fuel, t, u, j).1, s),
        match s.simplify(fuel, t, u, j).0 {
            Ok(cs) => all_justified(cs, given),
            Err(e) => error_traces(e, given),
        },
    decreases fuel, t.size() + u.size(), 0nat,
{
    lemma_mismatch_traces(s, j, given);
    if t.same(u) {
    } else if s.cx.is_bi_reducible(t) {
        if fuel > 0 {
            match s.cx.eval(t) {
                Ok(next) => lemma_simplify_justified(s, (fuel - 1) as nat, next, u, j, given),
                Err(_) => {},
            }
        }
    } else if s.cx.is_bi_reducible(u) {
        if fuel > 0 {
            match s.cx.eval(u) {
                Ok(next) => lemma_simplify_justified(s, (fuel - 1) as nat, t, next, j, given),
                Err(_) => {},
            }
        }
    } else if t.head_is_local() && u.head_is_local() && t.head().same(u.head()) {
        crate::term::lemma_args_size(t);
        crate::term::lemma_args_size(u);
        lemma_spines_justified(
            s,
            fuel,
            t.args(),
            u.args(),
            j,
            crate::solver::min_len(t.args(), u.args()),
            given,
        );
    } else if t.head_is_global() && u.head_is_global() && t.head().same(u.head()) {
        crate::term::lemma_args_size(t);
        crate::term::lemma_args_size(u);
        lemma_pairs_justified(t.args(), u.args(), j, crate::solver::min_len(t.args(), u.args()), given);
        lemma_spines_justified(
            s,
            fuel,
            t.args(),
            u.args(),
            j,
            crate::solver::min_len(t.args(), u.args()),
            given,
        );
    } else if t is Forall && u is Forall {
        lemma_binders_justified(
            s,
            fuel,
            t->Forall_binder,
            *t->term,
            u->Forall_binder,
            *u->term,
            j,
            given,
        );
    } else if t is Lambda && u is Lambda {
        lemma_binders_justified(
            s,
            fuel,
            t->Lambda_binder,
            *t->body,
            u->Lambda_binder,
            *u->body,
            j,
            given,
        );
    } else {
    }
}

pub proof fn lemma_spines_justified(
    s: SolverView,
    fuel: nat,
    ts: Seq<TermView>,
    us: Seq<TermView>,
    j: JustificationView,
    n: nat,
    given: Set<JustificationView>,
)
    requires
        j.built_from(given),
    ensures
        same_work(s.simplify_spines(fuel, ts, us, j, n).1, s),
        match s.simplify_spines(fuel, ts, us, j, n).0 {
            Ok(cs) => all_justified(cs, given),
            Err(e) => error_traces(e, given),
        },
    decreases fuel, crate::term::terms_size(ts) + crate::term::terms_size(us), n,
{
    if n == 0 || n > ts.len() || n > us.len() {
    } else {
        lemma_spines_justified(s, fuel, ts, us, j, (n - 1) as nat, given);
        let (before, s1) = s.simplify_spines(fuel, ts, us, j, (n - 1) as nat);
        if before is Ok {
            crate::term::lemma_term_in_size(ts, n - 1);
            crate::term::lemma_term_in_size(us, n - 1);
            lemma_simplify_justified(s1, fuel, ts[n - 1], us[n - 1], j, given);
        }
    }
}

pub proof fn lemma_binders_justified(
    s: SolverView,
    fuel: nat,
    b1: BinderView,
    body1: TermView,
    b2: BinderView,
    body2: TermView,
    j: JustificationView,
    given: Set<JustificationView>,
)
    requires
        j.built_from(given),
    ensures
        same_work(s.simplify_binders(fuel, b1, body1, b2, body2, j).1, s),
        match s.simplify_binders(fuel, b1, body1, b2, body2, j).0 {
            Ok(cs) => all_justified(cs, given),
            Err(e) => error_traces(e, given),
        },
    decreases fuel, b1.ty.size() + body1.size() + b2.ty.size() + body2.size(), 0nat,
{
    if s.cx.local_counter == usize::MAX {
    } else {
        let local = s.cx.next_local(b1.name.repr(), *b1.ty).to_term();
        let s1 = SolverView { cx: s.cx.minted(), ..s };
        crate::term::lemma_size_positive(body1);
        crate::term::lemma_size_positive(body2);
        crate::term::lemma_size_positive(*b1.ty);
        crate::term::lemma_size_positive(*b2.ty);
        crate::term::lemma_open_size(body1, local, 0);
        crate::term::lemma_open_size(body2, local, 0);
        lemma_simplify_justified(s1, fuel, *b1.ty, *b2.ty, j, given);
        let (first, s2) = s1.simplify(fuel, *b1.ty, *b2.ty, j);
        if first is Ok {
            lemma_simplify_justified(
                s2,
                fuel,
                body1.open_with(local, 0),
                body2.open_with(local, 0),
                j,
                given,
            );
        }
    }
}

/// Putting a justified constraint into a justified queue leaves it justified.
pub proof fn lemma_enqueue_justified(
    q: Seq<CategorizedConstraintView>,
    c: CategorizedConstraintView,
    given: Set<JustificationView>,
)
    requires
        all_justified(q, given),
        constraint_justified(c.constraint, given),
    ensures
        all_justified(enqueue(q, c), given),
{
    let p = position(q, c.category.rank(), 0);
    lemma_position(q, c.category.rank(), 0);
    let out = enqueue(q, c);
    assert forall|i: int| 0 <= i < out.len() implies constraint_justified(
        (#[trigger] out[i]).constraint,
        given,
    ) by {
        if i < p {
            assert(out[i] == q[i]);
        } else if i == p {
            assert(out[i] == c);
        } else {
            assert(out[i] == q[i - 1]);
        }
    }
}

/// Parking a justified constraint leaves a justified solver justified.
pub proof fn lemma_park_justified(
    s: SolverView,
    m: usize,
    c: CategorizedConstraintView,
    given: Set<JustificationView>,
)
    requires
        justified(s, given),
        constraint_justified(c.constraint, given),
    ensures
        justified(s.park(m, c), given),
{
    lemma_enqueue_justified(s.queue, c, given);
    let out = s.park(m, c);
    assert forall|k: usize| out.parked.contains_key(k) implies all_justified(
        #[trigger] out.parked[k],
        given,
    ) by {
        if k == m {
            if s.parked.contains_key(m) {
                assert(all_justified(s.parked[m], given));
            }
        } else {
            assert(s.parked.contains_key(k));
            assert(out.parked[k] == s.parked[k]);
        }
    }
}

/// Visiting a justified constraint leaves a justified solver justified, and
/// an error of the visit traces to `given`.
pub proof fn lemma_visit_justified(
    s: SolverView,
    fuel: nat,
    c: CategorizedConstraintView,
    given: Set<JustificationView>,
)
    requires
        justified(s, given),
        constraint_justified(c.constraint, given),
    ensures
        justified(s.visit(fuel, c).1, given),
        s.visit(fuel, c).0 matches Err(e) ==> error_traces(e, given),
    decreases fuel, 1nat, 0nat,
{
    match c.constraint {
        ConstraintView::Unification(t, u, j) => {
            lemma_visit_unification_justified(s, fuel, t, u, j, c.category, given);
        },
        ConstraintView::Choice(_) => {},
    }
}

pub proof fn lemma_visit_all_justified(
    s: SolverView,
    fuel: nat,
    cs: Seq<CategorizedConstraintView>,
    n: nat,
    given: Set<JustificationView>,
)
    requires
        justified(s, given),
        all_justified(cs, given),
    ensures
        justified(s.visit_all(fuel, cs, n).1, given),
        s.visit_all(fuel, cs, n).0 matches Err(e) ==> error_traces(e, given),
    decreases fuel, 2nat, n,
{
    if n == 0 || n > cs.len() {
    } else {
        lemma_visit_all_justified(s, fuel, cs, (n - 1) as nat, given);
        let (before, s1) = s.visit_all(fuel, cs, (n - 1) as nat);
        if before is Ok {
            assert(constraint_justified(cs[n - 1].constraint, given));
            lemma_visit_justified(s1, fuel, cs[n - 1], given);
        }
    }
}

pub proof fn lemma_revisit_justified(
    s: SolverView,
    fuel: nat,
    r: TermView,
    t: TermView,
    j: JustificationView,
    given: Set<JustificationView>,
)
    requires
        justified(s, given),
        j.built_from(given),
    ensures
        justified(s.revisit(fuel, r, t, j).1, given),
        s.revisit(fuel, r, t, j).0 matches Err(e) ==> error_traces(e, given),
    decreases fuel, 3nat, 0nat,
{
    lemma_simplify_justified(s, REDUCTION_LIMIT as nat, r, t, j, given);
    let (simplified, s1) = s.simplify(REDUCTION_LIMIT as nat, r, t, j);
    match simplified {
        Err(_) => {},
        Ok(cs) => {
            lemma_visit_all_justified(s1, fuel, cs, cs.len(), given);
        },
    }
}

pub proof fn lemma_visit_unification_justified(
    s: SolverView,
    fuel: nat,
    r: TermView,
    t: TermView,
    j: JustificationView,
    category: ConstraintCategory,
    given: Set<JustificationView>,
)
    requires
        justified(s, given),
        j.built_from(given),
    ensures
        justified(s.visit_unification(fuel, r, t, j, category).1, given),
        s.visit_unification(fuel, r, t, j, category).0 matches Err(e) ==> error_traces(e, given),
    decreases fuel, 0nat, 0nat,
{
    lemma_mismatch_traces(s, j, given);
    match s.pivot(r, t) {
        None => {},
        Some(meta) => {
            let m = meta_number(meta);
            if s.solutions.contains_key(m) {
                if fuel > 0 {
                    let (sol, j_m) = s.solutions[m];
                    assert(s.solutions[m].1.built_from(given));
                    lemma_revisit_justified(
                        s,
                        (fuel - 1) as nat,
                        r.instantiate_meta(m, sol),
                        t.instantiate_meta(m, sol),
                        j.join(j_m),
                        given,
                    );
                }
            } else if category == ConstraintCategory::Pattern && (is_pattern(r) || is_pattern(t)) {
                let s1 = if is_pattern(r) {
                    s.solved(r, t, j)
                } else {
                    s.solved(t, r, j)
                };
                let key = if is_pattern(r) {
                    crate::solver::head_meta(r)
                } else {
                    crate::solver::head_meta(t)
                };
                assert(justified(s1, given)) by {
                    assert forall|k: usize| s1.solutions.contains_key(k) implies (
                    #[trigger] s1.solutions[k]).1.built_from(given) by {
                        if k != key {
                            assert(s.solutions.contains_key(k));
                        }
                    }
                }
                lemma_mismatch_traces(s1, j, given);
                if s1.parked.contains_key(key) && fuel > 0 {
                    lemma_visit_all_justified(
                        s1,
                        (fuel - 1) as nat,
                        s1.parked[key],
                        s1.parked[key].len(),
                        given,
                    );
                }
            } else {
                let kept = if category == ConstraintCategory::Pattern {
                    ConstraintCategory::FlexRigid
                } else {
                    category
                };
                lemma_park_justified(
                    s,
                    m,
                    CategorizedConstraintView {
                        category: kept,
                        constraint: ConstraintView::Unification(r, t, j),
                    },
                    given,
                );
            }
        },
    }
}

/// Working through the queue leaves a justified solver justified, and an
/// error of it traces to `given`.
pub proof fn lemma_solve_justified(s: SolverView, steps: nat, given: Set<JustificationView>)
    requires
        justified(s, given),
    ensures
        justified(s.solve_within(steps).1, given),
        s.solve_within(steps).0 matches Err(e) ==> error_traces(e, given),
    decreases steps, s.queue.len(),
{
    if s.queue.len() == 0 {
    } else {
        let c = s.queue[0];
        let s1 = SolverView { queue: s.queue.drop_first(), ..s };
        assert(constraint_justified(s.queue[0].constraint, given));
        assert(justified(s1, given)) by {
            assert forall|i: int| 0 <= i < s1.queue.len() implies constraint_justified(
                (#[trigger] s1.queue[i]).constraint,
                given,
            ) by {
                assert(s1.queue[i] == s.queue[i + 1]);
            }
        }
        match c.constraint {
            ConstraintView::Choice(_) => {},
            ConstraintView::Unification(t, u, j) => {
                lemma_mismatch_traces(s1, j, given);
                if c.category == ConstraintCategory::FlexFlex && t.head_is_meta()
                    && u.head_is_meta() {
                    if s1.consistent(t, u) {
                        lemma_solve_justified(s1, steps, given);
                    }
                } else {
                    lemma_visit_unification_justified(
                        s1,
                        REDUCTION_LIMIT as nat,
                        t,
                        u,
                        j,
                        c.category,
                        given,
                    );
                    let (visited, s2) = s1.visit_unification(
                        REDUCTION_LIMIT as nat,
                        t,
                        u,
                        j,
                        c.category,
                    );
                    if visited is Ok {
                        lemma_mismatch_traces(s2, j, given);
                        if s2.queue.len() < s.queue.len() {
                            lemma_solve_justified(s2, steps, given);
                        } else if steps > 0 {
                            lemma_solve_justified(s2, (steps - 1) as nat, given);
                        }
                    }
                }
            },
        }
    }
}

/// Taking in constraints whose justifications are among `given` leaves a
/// justified solver justified, and an error of it traces to `given`.
pub proof fn lemma_intake_justified(
    s: SolverView,
    cs: Seq<ConstraintView>,
    n: nat,
    given: Set<JustificationView>,
)
    requires
        justified(s, given),
        forall|i: int| 0 <= i < cs.len() ==> constraint_justified(#[trigger] cs[i], given),
    ensures
        justified(s.intake(cs, n).1, given),
        s.intake(cs, n).0 matches Err(e) ==> error_traces(e, given),
    decreases n,
{
    if n == 0 || n > cs.len() {
    } else {
        lemma_intake_justified(s, cs, (n - 1) as nat, given);
        let (before, s1) = s.intake(cs, (n - 1) as nat);
        if before is Ok {
            assert(constraint_justified(cs[n - 1], given));
            match cs[n - 1] {
                ConstraintView::Unification(t, u, j) => {
                    lemma_revisit_justified(s1, REDUCTION_LIMIT as nat, t, u, j, given);
                },
                ConstraintView::Choice(_) => {
                    lemma_visit_justified(s1, REDUCTION_LIMIT as nat, cs[n - 1].categorize(), given);
                },
            }
        }
    }
}

/// From the constraints that a solver is set up with to the end of `solve`,
/// every justification that the solver holds is built from the
/// justifications of those constraints, and the justification of every
/// error traces to them: each of its leaves is a leaf of theirs, with its
/// terms explained.
pub proof fn lemma_solver_run_justified(cx: TyCtxtView, cs: Seq<ConstraintView>, steps: nat)
    ensures
        ({
            let given = justifications_of(cs);
            let (taken, s) = SolverView::empty(cx).intake(cs, cs.len());
            let (solved, done) = s.solve_within(steps);
            &&& justified(s, given)
            &&& taken matches Err(e) ==> error_traces(e, given)
            &&& justified(done, given)
            &&& solved matches Err(e) ==> error_traces(e, given)
        }),
{
    let given = justifications_of(cs);
    let s0 = SolverView::empty(cx);
    assert(justified(s0, given));
    assert forall|i: int| 0 <= i < cs.len() implies constraint_justified(
        #[trigger] cs[i],
        given,
    ) by {
        match cs[i] {
            ConstraintView::Unification(_, _, j) => {
                assert(justifies(j, cs[i]));
                assert(given.contains(j));
            },
            ConstraintView::Choice(_) => {},
        }
    }
    lemma_intake_justified(s0, cs, cs.len(), given);
    let (taken, s) = s0.intake(cs, cs.len());
    lemma_solve_justified(s, steps, given);
}

} // verus!
