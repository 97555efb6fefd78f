//! What holds of the term operations and of the solver, for all inputs.

use vstd::prelude::*;
use crate::constraint::{
    is_pattern, CategorizedConstraintView, ConstraintCategory, ConstraintView, JustificationView,
};
use crate::inductive::names_to_terms;
use crate::solver::{
    head_meta, local_names, meta_number, metavars_replaced, ErrorView, Solutions, SolverView,
};
use crate::typeck::{TyCtxtView, REDUCTION_LIMIT};
use crate::term::{deeper, NameView, TermView};

verus! {

/// The deepest nesting of binders in a term.
pub open spec fn binder_depth(t: TermView) -> nat
    decreases t,
{
    match t {
        TermView::App { fun, arg, .. } => if binder_depth(*fun) >= binder_depth(*arg) {
            binder_depth(*fun)
        } else {
            binder_depth(*arg)
        },
        TermView::Forall { binder, term, .. } => if binder_depth(*binder.ty) >= binder_depth(*term)
            + 1 {
            binder_depth(*binder.ty)
        } else {
            binder_depth(*term) + 1
        },
        TermView::Lambda { binder, body, .. } => if binder_depth(*binder.ty) >= binder_depth(*body)
            + 1 {
            binder_depth(*binder.ty)
        } else {
            binder_depth(*body) + 1
        },
        _ => 0,
    }
}

/// Whether every bound index of `t` is below `k` plus the number of binders around it.
pub open spec fn closed_at(t: TermView, k: usize) -> bool
    decreases t,
{
    match t {
        TermView::Var { name: NameView::Bound { index, .. } } => index < k,
        TermView::App { fun, arg, .. } => closed_at(*fun, k) && closed_at(*arg, k),
        TermView::Forall { binder, term, .. } => closed_at(*binder.ty, k) && closed_at(
            *term,
            deeper(k),
        ),
        TermView::Lambda { binder, body, .. } => closed_at(*binder.ty, k) && closed_at(
            *body,
            deeper(k),
        ),
        _ => true,
    }
}

/// Whether `t` is well formed: no bound index of it points outside its binders.
pub open spec fn well_formed(t: TermView) -> bool {
    closed_at(t, 0)
}

/// Whether each of `ls` is a local whose type is well formed and nests
/// binders less than `limit` deep.
pub open spec fn locals_within(ls: Seq<NameView>, limit: nat) -> bool {
    forall|i: int| 0 <= i < ls.len() ==> #[trigger] local_within(ls[i], limit)
}

/// Whether `n` is a local whose type is well formed and nests binders less
/// than `limit` deep.
pub open spec fn local_within(n: NameView, limit: nat) -> bool {
    match n {
        NameView::Local { ty, .. } => well_formed(*ty) && binder_depth(*ty) < limit,
        _ => false,
    }
}

/// Every term is the same as itself.
pub proof fn lemma_same_reflexive(t: TermView)
    ensures
        t.same(t),
    decreases t,
{
    match t {
        TermView::App { fun, arg, .. } => {
            lemma_same_reflexive(*fun);
            lemma_same_reflexive(*arg);
        },
        TermView::Forall { binder, term, .. } => {
            lemma_same_reflexive(*binder.ty);
            lemma_same_reflexive(*term);
        },
        TermView::Lambda { binder, body, .. } => {
            lemma_same_reflexive(*binder.ty);
            lemma_same_reflexive(*body);
        },
        _ => {},
    }
}

/// Sameness of terms is transitive.
pub proof fn lemma_same_transitive(t: TermView, u: TermView, v: TermView)
    requires
        t.same(u),
        u.same(v),
    ensures
        t.same(v),
    decreases t,
{
    match (t, u, v) {
        (
            TermView::App { fun: f, arg: a, .. },
            TermView::App { fun: g, arg: b, .. },
            TermView::App { fun: h, arg: c, .. },
        ) => {
            lemma_same_transitive(*f, *g, *h);
            lemma_same_transitive(*a, *b, *c);
        },
        (
            TermView::Forall { binder: b, term: x, .. },
            TermView::Forall { binder: c, term: y, .. },
            TermView::Forall { binder: d, term: z, .. },
        ) => {
            lemma_same_transitive(*b.ty, *c.ty, *d.ty);
            lemma_same_transitive(*x, *y, *z);
        },
        (
            TermView::Lambda { binder: b, body: x, .. },
            TermView::Lambda { binder: c, body: y, .. },
            TermView::Lambda { binder: d, body: z, .. },
        ) => {
            lemma_same_transitive(*b.ty, *c.ty, *d.ty);
            lemma_same_transitive(*x, *y, *z);
        },
        _ => {},
    }
}

/// Opening two terms that are the same with one term gives terms that are the same.
pub proof fn lemma_open_respects_same(t: TermView, u: TermView, a: TermView, k: usize)
    requires
        t.same(u),
    ensures
        t.open_with(a, k).same(u.open_with(a, k)),
    decreases t,
{
    lemma_same_reflexive(a);
    match (t, u) {
        (TermView::App { fun: f, arg: x, .. }, TermView::App { fun: g, arg: y, .. }) => {
            lemma_open_respects_same(*f, *g, a, k);
            lemma_open_respects_same(*x, *y, a, k);
        },
        (
            TermView::Forall { binder: b, term: x, .. },
            TermView::Forall { binder: c, term: y, .. },
        ) => {
            lemma_open_respects_same(*b.ty, *c.ty, a, k);
            lemma_open_respects_same(*x, *y, a, deeper(k));
        },
        (
            TermView::Lambda { binder: b, body: x, .. },
            TermView::Lambda { binder: c, body: y, .. },
        ) => {
            lemma_open_respects_same(*b.ty, *c.ty, a, k);
            lemma_open_respects_same(*x, *y, a, deeper(k));
        },
        _ => {},
    }
}

/// Instantiating two terms that are the same with the same arguments gives
/// terms that are the same.
pub proof fn lemma_instantiate_all_respects_same(t: TermView, u: TermView, args: Seq<TermView>)
    requires
        t.same(u),
    ensures
        t.instantiate_all(args).same(u.instantiate_all(args)),
    decreases args.len(),
{
    if args.len() > 0 {
        match (t, u) {
            (TermView::Forall { term: x, .. }, TermView::Forall { term: y, .. }) => {
                lemma_open_respects_same(*x, *y, args[0], 0);
            },
            (TermView::Lambda { body: x, .. }, TermView::Lambda { body: y, .. }) => {
                lemma_open_respects_same(*x, *y, args[0], 0);
            },
            _ => {},
        }
        lemma_instantiate_all_respects_same(
            t.instantiate(args[0]),
            u.instantiate(args[0]),
            args.drop_first(),
        );
    }
}

/// Closing a local and opening the index again with that local gives the term back.
pub proof fn lemma_open_close(t: TermView, l: NameView, k: usize)
    requires
        l is Local,
        closed_at(t, k),
    ensures
        t.close(l->Local_number, k).open_with(l.to_term(), k).same(t),
    decreases t,
{
    match t {
        TermView::App { fun, arg, .. } => {
            lemma_open_close(*fun, l, k);
            lemma_open_close(*arg, l, k);
        },
        TermView::Forall { binder, term, .. } => {
            lemma_open_close(*binder.ty, l, k);
            lemma_open_close(*term, l, deeper(k));
        },
        TermView::Lambda { binder, body, .. } => {
            lemma_open_close(*binder.ty, l, k);
            lemma_open_close(*body, l, deeper(k));
        },
        _ => {},
    }
}

/// Closing a local in a term that is closed at `k` leaves it closed one index higher.
pub proof fn lemma_close_closed(t: TermView, x: usize, k: usize)
    requires
        closed_at(t, k),
        k + binder_depth(t) < usize::MAX,
    ensures
        closed_at(t.close(x, k), deeper(k)),
        binder_depth(t.close(x, k)) == binder_depth(t),
    decreases t,
{
    match t {
        TermView::App { fun, arg, .. } => {
            lemma_close_closed(*fun, x, k);
            lemma_close_closed(*arg, x, k);
        },
        TermView::Forall { binder, term, .. } => {
            lemma_close_closed(*binder.ty, x, k);
            lemma_close_closed(*term, x, deeper(k));
        },
        TermView::Lambda { binder, body, .. } => {
            lemma_close_closed(*binder.ty, x, k);
            lemma_close_closed(*body, x, deeper(k));
        },
        _ => {},
    }
}

/// Abstracting well-formed locals out of a well-formed term gives a well-formed term.
pub proof fn lemma_abstract_closed(pi: bool, ls: Seq<NameView>, b: TermView, limit: nat)
    requires
        locals_within(ls, limit),
        well_formed(b),
        binder_depth(b) < limit,
        limit + ls.len() < usize::MAX,
    ensures
        well_formed(TermView::abstract_over(pi, ls, b)),
        binder_depth(TermView::abstract_over(pi, ls, b)) < limit + ls.len(),
    decreases ls.len(),
{
    if ls.len() > 0 {
        let rest = ls.drop_first();
        assert forall|i: int| 0 <= i < rest.len() implies #[trigger] local_within(
            rest[i],
            limit,
        ) by {
            assert(rest[i] == ls[i + 1]);
            assert(local_within(ls[i + 1], limit));
        }
        lemma_abstract_closed(pi, rest, b, limit);
        let inner = TermView::abstract_over(pi, rest, b);
        assert(local_within(ls[0], limit));
        lemma_close_closed(inner, ls[0]->Local_number, 0);
    }
}

/// Abstracting locals out of a term as lambdas and instantiating the
/// binders again with the same locals, the outermost first, gives the term
/// back up to the names of bound variables; the same holds of function types.
///
/// The term and the types of the locals must be well formed, and no nesting
/// of binders may reach the largest machine index.
pub proof fn lemma_abstract_instantiate(pi: bool, ls: Seq<NameView>, b: TermView, limit: nat)
    requires
        locals_within(ls, limit),
        well_formed(b),
        binder_depth(b) < limit,
        limit + ls.len() < usize::MAX,
    ensures
        TermView::abstract_over(pi, ls, b).instantiate_all(names_to_terms(ls, ls.len())).same(b),
    decreases ls.len(),
{
    let args = names_to_terms(ls, ls.len());
    if ls.len() == 0 {
        lemma_same_reflexive(b);
    } else {
        let rest = ls.drop_first();
        assert forall|i: int| 0 <= i < rest.len() implies #[trigger] local_within(
            rest[i],
            limit,
        ) by {
            assert(rest[i] == ls[i + 1]);
            assert(local_within(ls[i + 1], limit));
        }
        let inner = TermView::abstract_over(pi, rest, b);
        lemma_abstract_closed(pi, rest, b, limit);
        lemma_abstract_instantiate(pi, rest, b, limit);
        assert(local_within(ls[0], limit));
        let whole = TermView::abstract_over(pi, ls, b);
        lemma_names_to_terms(ls);
        lemma_names_to_terms(rest);
        let rest_args = names_to_terms(rest, rest.len());
        assert(args.len() == ls.len());
        assert(args[0] == ls[0].to_term());
        assert(args.drop_first() =~= rest_args) by {
            assert forall|i: int| 0 <= i < rest_args.len() implies args.drop_first()[i]
                == rest_args[i] by {
                assert(rest[i] == ls[i + 1]);
            }
        }
        // The outermost binder is opened first.
        lemma_open_close(inner, ls[0], 0);
        let opened = whole.instantiate(args[0]);
        assert(opened == inner.close(ls[0]->Local_number, 0).open_with(ls[0].to_term(), 0));
        lemma_instantiate_all_respects_same(opened, inner, rest_args);
        lemma_same_transitive(
            opened.instantiate_all(rest_args),
            inner.instantiate_all(rest_args),
            b,
        );
    }
}

/// The variables that name a list of names, item by item.
pub proof fn lemma_names_to_terms(ls: Seq<NameView>)
    ensures
        names_to_terms(ls, ls.len()).len() == ls.len(),
        forall|i: int| 0 <= i < ls.len() ==> names_to_terms(ls, ls.len())[i] == ls[i].to_term(),
{
    lemma_names_to_terms_prefix(ls, ls.len());
}

pub proof fn lemma_names_to_terms_prefix(ls: Seq<NameView>, n: nat)
    requires
        n <= ls.len(),
    ensures
        names_to_terms(ls, n).len() == n,
        forall|i: int| 0 <= i < n ==> names_to_terms(ls, n)[i] == ls[i].to_term(),
    decreases n,
{
    if n > 0 {
        lemma_names_to_terms_prefix(ls, (n - 1) as nat);
    }
}

/// A term that holds no metavariable is its own replacement.
pub proof fn lemma_replace_without_metas(t: TermView, solutions: Solutions)
    requires
        !t.has_meta(),
    ensures
        metavars_replaced(t, solutions) == Ok::<TermView, ErrorView>(t),
    decreases t,
{
    match t {
        TermView::App { fun, arg, .. } => {
            lemma_replace_without_metas(*fun, solutions);
            lemma_replace_without_metas(*arg, solutions);
        },
        TermView::Forall { binder, term, .. } => {
            lemma_replace_without_metas(*binder.ty, solutions);
            lemma_replace_without_metas(*term, solutions);
        },
        TermView::Lambda { binder, body, .. } => {
            lemma_replace_without_metas(*binder.ty, solutions);
            lemma_replace_without_metas(*body, solutions);
        },
        _ => {},
    }
}

/// Whether no solution mentions a metavariable.
pub open spec fn ground(solutions: Solutions) -> bool {
    forall|m: usize| solutions.contains_key(m) ==> !(#[trigger] solutions[m]).0.has_meta()
}

/// Replacement by solutions that mention no metavariable leaves none.
pub proof fn lemma_replaced_is_ground(t: TermView, solutions: Solutions)
    requires
        ground(solutions),
        metavars_replaced(t, solutions) is Ok,
    ensures
        !metavars_replaced(t, solutions)->Ok_0.has_meta(),
    decreases t,
{
    match t {
        TermView::App { fun, arg, .. } => {
            lemma_replaced_is_ground(*fun, solutions);
            lemma_replaced_is_ground(*arg, solutions);
        },
        TermView::Forall { binder, term, .. } => {
            lemma_replaced_is_ground(*binder.ty, solutions);
            lemma_replaced_is_ground(*term, solutions);
        },
        TermView::Lambda { binder, body, .. } => {
            lemma_replaced_is_ground(*binder.ty, solutions);
            lemma_replaced_is_ground(*body, solutions);
        },
        _ => {},
    }
}

/// Replacing the metavariables of a term twice gives what replacing them
/// once gives, if no solution mentions a metavariable.
pub proof fn lemma_replace_metavars_idempotent(t: TermView, solutions: Solutions)
    requires
        ground(solutions),
        metavars_replaced(t, solutions) is Ok,
    ensures
        metavars_replaced(metavars_replaced(t, solutions)->Ok_0, solutions) == metavars_replaced(
            t,
            solutions,
        ),
{
    lemma_replaced_is_ground(t, solutions);
    lemma_replace_without_metas(metavars_replaced(t, solutions)->Ok_0, solutions);
}

/// Decomposing a term against itself leaves no constraint and does not
/// change the solver, whatever the depth allowed.
pub proof fn lemma_simplify_reflexive(s: SolverView, fuel: nat, t: TermView, j: JustificationView)
    ensures
        s.simplify(fuel, t, t, j) == (
            Ok::<Seq<CategorizedConstraintView>, ErrorView>(Seq::empty()),
            s,
        ),
{
    lemma_same_reflexive(t);
}

/// Decomposing two function types that differ decomposes their binder
/// types and then their bodies, in which one fresh local stands for both
/// bound variables; the constraints of the two follow one another. This
/// costs none of the reductions that are allowed.
pub proof fn lemma_simplify_forall(
    s: SolverView,
    fuel: nat,
    t: TermView,
    u: TermView,
    j: JustificationView,
)
    requires
        t is Forall,
        u is Forall,
        !t.same(u),
    ensures
        s.simplify(fuel, t, u, j) == s.simplify_binders(
            fuel,
            t->Forall_binder,
            *t->term,
            u->Forall_binder,
            *u->term,
            j,
        ),
        s.cx.local_counter < usize::MAX ==> {
            let local = s.cx.next_local(t->Forall_binder.name.repr(), *t->Forall_binder.ty).to_term();
            let s1 = SolverView { cx: s.cx.minted(), ..s };
            let (types, s2) = s1.simplify(fuel, *t->Forall_binder.ty, *u->Forall_binder.ty, j);
            let (bodies, s3) = s2.simplify(
                fuel,
                t->term.open_with(local, 0),
                u->term.open_with(local, 0),
                j,
            );
            types is Ok && bodies is Ok ==> s.simplify(fuel, t, u, j) == (
                Ok::<Seq<CategorizedConstraintView>, ErrorView>(types->Ok_0 + bodies->Ok_0),
                s3,
            )
        },
{
    assert(t.head() == t);
    assert(u.head() == u);
    assert(!s.cx.is_bi_reducible(t));
    assert(!s.cx.is_bi_reducible(u));
    assert(s.simplify(fuel, t, u, j) == s.simplify_binders(
        fuel,
        t->Forall_binder,
        *t->term,
        u->Forall_binder,
        *u->term,
        j,
    ));
}

/// A term with a metavariable at its head holds a metavariable.
pub proof fn lemma_head_meta_has_meta(t: TermView)
    requires
        t.head_is_meta(),
    ensures
        t.has_meta(),
    decreases t,
{
    match t {
        TermView::App { fun, .. } => {
            lemma_head_meta_has_meta(*fun);
        },
        _ => {},
    }
}

/// A pattern constraint solves its metavariable: taking in the one
/// constraint that a metavariable applied to distinct locals be some term
/// that is no such pattern, is not the same term and cannot be reduced,
/// leaves the metavariable solved by the lambda over those locals around
/// that term, justified as the constraint was; and `solve` then has nothing
/// left to do.
pub proof fn lemma_pattern_solves(
    cx: TyCtxtView,
    pattern: TermView,
    other: TermView,
    j: JustificationView,
    steps: nat,
)
    requires
        is_pattern(pattern),
        !is_pattern(other),
        !pattern.same(other),
        !cx.is_bi_reducible(other),
    ensures
        ({
            let c = ConstraintView::Unification(pattern, other, j);
            let (taken, s) = SolverView::empty(cx).intake(seq![c], 1);
            &&& taken is Ok
            &&& s.solutions == Map::<usize, (TermView, JustificationView)>::empty().insert(
                head_meta(pattern),
                (
                    TermView::abstract_lambda(
                        local_names(pattern.args(), pattern.args().len()),
                        other,
                    ),
                    j,
                ),
            )
            &&& s.solve_within(steps) == (Ok::<(), ErrorView>(()), s)
        }),
{
    let c = ConstraintView::Unification(pattern, other, j);
    let s0 = SolverView::empty(cx);
    reveal_with_fuel(SolverView::intake, 2);
    reveal_with_fuel(SolverView::visit_all, 2);
    assert(pattern.head() is Var);
    assert(cx.is_stuck(pattern) is Some);
    assert(!cx.is_bi_reducible(pattern));
    let cc = c.categorize();
    assert(s0.simplify(REDUCTION_LIMIT as nat, pattern, other, j) == (
        Ok::<Seq<CategorizedConstraintView>, ErrorView>(seq![cc]),
        s0,
    ));
    lemma_head_meta_has_meta(pattern);
    assert(cc.category == ConstraintCategory::Pattern);
    assert(seq![cc].len() == 1);
    assert(seq![cc][0] == cc);
    assert(s0.pivot(pattern, other) is Some);
    let m = meta_number(s0.pivot(pattern, other)->0);
    assert(!s0.solutions.contains_key(m));
    let s1 = s0.solved(pattern, other, j);
    assert(!s1.parked.contains_key(head_meta(pattern)));
    assert(s0.visit_unification(REDUCTION_LIMIT as nat, pattern, other, j, cc.category) == (
        Ok::<(), ErrorView>(()),
        s1,
    ));
}

/// Of two distinct locals `a` and `b`, a metavariable applied to `a` and
/// then to `b` is a pattern, and the locals that it is applied to are `a` and `b`.
pub proof fn lemma_pattern_of_two_locals(m: NameView, a: NameView, b: NameView)
    requires
        m is Meta,
        a is Local,
        b is Local,
        !a.same(b),
    ensures
        ({
            let t = TermView::apply_all(m.to_term(), seq![a.to_term(), b.to_term()]);
            &&& is_pattern(t)
            &&& head_meta(t) == meta_number(m)
            &&& local_names(t.args(), t.args().len()) == seq![a, b]
        }),
{
    let args = seq![a.to_term(), b.to_term()];
    reveal_with_fuel(TermView::apply_all, 3);
    reveal_with_fuel(TermView::head, 3);
    reveal_with_fuel(TermView::args, 3);
    reveal_with_fuel(local_names, 3);
    let t = TermView::apply_all(m.to_term(), args);
    assert(args.drop_first() =~= seq![b.to_term()]);
    assert(args.drop_first().drop_first() =~= Seq::<TermView>::empty());
    let inner = TermView::App {
        span: crate::span::Span::none(),
        fun: Box::new(m.to_term()),
        arg: Box::new(a.to_term()),
    };
    assert(t == TermView::App {
        span: crate::span::Span::none(),
        fun: Box::new(inner),
        arg: Box::new(b.to_term()),
    });
    assert(t.args() =~= args);
    assert(local_names(args, 2) =~= seq![a, b]);
}

/// A local that a context mints differs from every local that it minted
/// before: its number is the number of locals minted so far, which grows
/// with each.
pub proof fn lemma_minted_locals_differ(
    cx: TyCtxtView,
    repr: Seq<char>,
    ty: TermView,
    later: Seq<char>,
    later_ty: TermView,
)
    requires
        cx.local_counter < usize::MAX,
    ensures
        !cx.next_local(repr, ty).same(cx.minted().next_local(later, later_ty)),
        cx.minted().local_counter > cx.local_counter,
{
}

/// Sameness of terms is symmetric.
pub proof fn lemma_same_symmetric(t: TermView, u: TermView)
    requires
        t.same(u),
    ensures
        u.same(t),
    decreases t,
{
    match (t, u) {
        (TermView::App { fun: f, arg: a, .. }, TermView::App { fun: g, arg: b, .. }) => {
            lemma_same_symmetric(*f, *g);
            lemma_same_symmetric(*a, *b);
        },
        (
            TermView::Forall { binder: b, term: x, .. },
            TermView::Forall { binder: c, term: y, .. },
        ) => {
            lemma_same_symmetric(*b.ty, *c.ty);
            lemma_same_symmetric(*x, *y);
        },
        (
            TermView::Lambda { binder: b, body: x, .. },
            TermView::Lambda { binder: c, body: y, .. },
        ) => {
            lemma_same_symmetric(*b.ty, *c.ty);
            lemma_same_symmetric(*x, *y);
        },
        _ => {},
    }
}

/// The span of a name plays no part in what the name is the same as.
pub proof fn lemma_set_span_same(n: NameView, other: NameView, span: crate::span::Span)
    ensures
        n.set_span(span).same(other) == n.same(other),
        n.set_span(span).same(n),
{
}

/// Whether the queue of the solver is in order: the ranks never fall from
/// one waiting constraint to the next.
pub open spec fn queue_sorted(s: SolverView) -> bool {
    crate::queue::sorted(s.queue)
}

/// Decomposition does not touch the queue.
pub proof fn lemma_simplify_keeps_queue(
    s: SolverView,
    fuel: nat,
    t: TermView,
    u: TermView,
    j: JustificationView,
)
    ensures
        s.simplify(fuel, t, u, j).1.queue == s.queue,
{
    crate::provenance::lemma_simplify_justified(s, fuel, t, u, j, set![j]);
}

/// Visiting a constraint leaves the queue of the solver in order.
pub proof fn lemma_visit_sorted(s: SolverView, fuel: nat, c: CategorizedConstraintView)
    requires
        queue_sorted(s),
    ensures
        queue_sorted(s.visit(fuel, c).1),
    decreases fuel, 1nat, 0nat,
{
    match c.constraint {
        ConstraintView::Unification(t, u, j) => {
            lemma_visit_unification_sorted(s, fuel, t, u, j, c.category);
        },
        ConstraintView::Choice(_) => {},
    }
}

pub proof fn lemma_visit_all_sorted(
    s: SolverView,
    fuel: nat,
    cs: Seq<CategorizedConstraintView>,
    n: nat,
)
    requires
        queue_sorted(s),
    ensures
        queue_sorted(s.visit_all(fuel, cs, n).1),
    decreases fuel, 2nat, n,
{
    if n == 0 || n > cs.len() {
    } else {
        lemma_visit_all_sorted(s, fuel, cs, (n - 1) as nat);
        let (before, s1) = s.visit_all(fuel, cs, (n - 1) as nat);
        if before is Ok {
            lemma_visit_sorted(s1, fuel, cs[n - 1]);
        }
    }
}

pub proof fn lemma_revisit_sorted(
    s: SolverView,
    fuel: nat,
    r: TermView,
    t: TermView,
    j: JustificationView,
)
    requires
        queue_sorted(s),
    ensures
        queue_sorted(s.revisit(fuel, r, t, j).1),
    decreases fuel, 3nat, 0nat,
{
    lemma_simplify_keeps_queue(s, REDUCTION_LIMIT as nat, r, t, j);
    let (simplified, s1) = s.simplify(REDUCTION_LIMIT as nat, r, t, j);
    match simplified {
        Err(_) => {},
        Ok(cs) => {
            lemma_visit_all_sorted(s1, fuel, cs, cs.len());
        },
    }
}

pub proof fn lemma_visit_unification_sorted(
    s: SolverView,
    fuel: nat,
    r: TermView,
    t: TermView,
    j: JustificationView,
    category: ConstraintCategory,
)
    requires
        queue_sorted(s),
    ensures
        queue_sorted(s.visit_unification(fuel, r, t, j, category).1),
    decreases fuel, 0nat, 0nat,
{
    match s.pivot(r, t) {
        None => {},
        Some(meta) => {
            let m = meta_number(meta);
            if s.solutions.contains_key(m) {
                if fuel > 0 {
                    let (sol, j_m) = s.solutions[m];
                    lemma_revisit_sorted(
                        s,
                        (fuel - 1) as nat,
                        r.instantiate_meta(m, sol),
                        t.instantiate_meta(m, sol),
                        j.join(j_m),
                    );
                }
            } else if category == ConstraintCategory::Pattern && (is_pattern(r) || is_pattern(t)) {
                let s1 = if is_pattern(r) {
                    s.solved(r, t, j)
                } else {
                    s.solved(t, r, j)
                };
                let key = if is_pattern(r) {
                    head_meta(r)
                } else {
                    head_meta(t)
                };
                if s1.parked.contains_key(key) && fuel > 0 {
                    lemma_visit_all_sorted(
                        s1,
                        (fuel - 1) as nat,
                        s1.parked[key],
                        s1.parked[key].len(),
                    );
                }
            } else {
                let kept = if category == ConstraintCategory::Pattern {
                    ConstraintCategory::FlexRigid
                } else {
                    category
                };
                crate::queue::lemma_enqueue_sorted(
                    s.queue,
                    CategorizedConstraintView {
                        category: kept,
                        constraint: ConstraintView::Unification(r, t, j),
                    },
                );
            }
        },
    }
}

/// Taking in constraints leaves the queue of the solver in order.
pub proof fn lemma_intake_sorted(s: SolverView, cs: Seq<ConstraintView>, n: nat)
    requires
        queue_sorted(s),
    ensures
        queue_sorted(s.intake(cs, n).1),
    decreases n,
{
    if n == 0 || n > cs.len() {
    } else {
        lemma_intake_sorted(s, cs, (n - 1) as nat);
        let (before, s1) = s.intake(cs, (n - 1) as nat);
        if before is Ok {
            match cs[n - 1] {
                ConstraintView::Unification(t, u, j) => {
                    lemma_revisit_sorted(s1, REDUCTION_LIMIT as nat, t, u, j);
                },
                ConstraintView::Choice(_) => {
                    lemma_visit_sorted(s1, REDUCTION_LIMIT as nat, cs[n - 1].categorize());
                },
            }
        }
    }
}

/// The solver works on the most actionable constraint first: the queue of a
/// solver that was set up from constraints is in order, and stays in order
/// while `solve` runs, so that the constraint that `solve` takes next ranks
/// no higher than any that waits.
pub proof fn lemma_solver_queue_sorted(cx: TyCtxtView, cs: Seq<ConstraintView>, steps: nat)
    ensures
        queue_sorted(SolverView::empty(cx).intake(cs, cs.len()).1),
        queue_sorted(SolverView::empty(cx).intake(cs, cs.len()).1.solve_within(steps).1),
{
    let s0 = SolverView::empty(cx);
    lemma_intake_sorted(s0, cs, cs.len());
    lemma_solve_sorted(s0.intake(cs, cs.len()).1, steps);
}

/// Working through the queue leaves it in order.
pub proof fn lemma_solve_sorted(s: SolverView, steps: nat)
    requires
        queue_sorted(s),
    ensures
        queue_sorted(s.solve_within(steps).1),
    decreases steps, s.queue.len(),
{
    if s.queue.len() > 0 {
        let c = s.queue[0];
        let s1 = SolverView { queue: s.queue.drop_first(), ..s };
        assert(queue_sorted(s1)) by {
            assert forall|i: int, k: int| 0 <= i <= k < s1.queue.len() implies s1.queue[i].category.rank()
                <= s1.queue[k].category.rank() by {
                assert(s1.queue[i] == s.queue[i + 1]);
                assert(s1.queue[k] == s.queue[k + 1]);
            }
        }
        match c.constraint {
            ConstraintView::Choice(_) => {},
            ConstraintView::Unification(t, u, j) => {
                if c.category == ConstraintCategory::FlexFlex && t.head_is_meta()
                    && u.head_is_meta() {
                    if s1.consistent(t, u) {
                        lemma_solve_sorted(s1, steps);
                    }
                } else {
                    lemma_visit_unification_sorted(s1, REDUCTION_LIMIT as nat, t, u, j, c.category);
                    let (visited, s2) = s1.visit_unification(
                        REDUCTION_LIMIT as nat,
                        t,
                        u,
                        j,
                        c.category,
                    );
                    if visited is Ok {
                        if s2.queue.len() < s.queue.len() {
                            lemma_solve_sorted(s2, steps);
                        } else if steps > 0 {
                            lemma_solve_sorted(s2, (steps - 1) as nat);
                        }
                    }
                }
            },
        }
    }
}

/// Whether `c` is a flex-flex constraint between two terms with a
/// metavariable at the head, whose two metavariables have the same
/// solution in `s`, or both none.
pub open spec fn consistent_flex_flex(s: SolverView, c: CategorizedConstraintView) -> bool {
    c.category == ConstraintCategory::FlexFlex && match c.constraint {
        ConstraintView::Unification(t, u, _) => t.head_is_meta() && u.head_is_meta() && s.consistent(
            t,
            u,
        ),
        ConstraintView::Choice(_) => false,
    }
}

/// However many flex-flex constraints wait, if each of them is consistent
/// then `solve` takes them all from the queue, succeeds, and leaves the
/// solutions, the parked constraints and the context as they were, whatever
/// the number of visits that it has to spare.
pub proof fn lemma_solve_consistent(s: SolverView, steps: nat)
    requires
        forall|i: int| 0 <= i < s.queue.len() ==> consistent_flex_flex(s, #[trigger] s.queue[i]),
    ensures
        s.solve_within(steps) == (
            Ok::<(), ErrorView>(()),
            SolverView { queue: Seq::empty(), ..s },
        ),
    decreases s.queue.len(),
{
    if s.queue.len() == 0 {
        assert(s.queue =~= Seq::<CategorizedConstraintView>::empty());
    } else {
        let s1 = SolverView { queue: s.queue.drop_first(), ..s };
        assert(consistent_flex_flex(s, s.queue[0]));
        assert forall|i: int| 0 <= i < s1.queue.len() implies consistent_flex_flex(
            s1,
            #[trigger] s1.queue[i],
        ) by {
            assert(s1.queue[i] == s.queue[i + 1]);
            assert(consistent_flex_flex(s, s.queue[i + 1]));
        }
        lemma_solve_consistent(s1, steps);
    }
}

/// A constraint neither side of which waits for a metavariable is never
/// visited in silence: the visit fails, and leaves the solver as it was.
pub proof fn lemma_visit_needs_a_stuck_side(
    s: SolverView,
    fuel: nat,
    r: TermView,
    t: TermView,
    j: JustificationView,
    category: ConstraintCategory,
)
    requires
        s.cx.is_stuck(r) is None,
        s.cx.is_stuck(t) is None,
    ensures
        s.visit_unification(fuel, r, t, j, category) == (Err::<(), ErrorView>(s.mismatch(j)), s),
{
}

/// A name that is resolved carries the place of the occurrence that was
/// resolved, not the place where the name was bound; and a placeholder never
/// comes out as an unknown variable.
pub proof fn lemma_elaborate_name_span(
    s: crate::elaborate::LocalElabCxView,
    name: crate::syntax::NameView,
)
    ensures
        s.elaborate_name(name).0 matches Ok(n) ==> n.span() == name.span,
        name.repr is Placeholder ==> !(s.elaborate_name(name).0 matches Err(
            crate::elaborate::ErrorView::UnknownVariable(_),
        )),
{
}

/// A placeholder becomes a fresh metavariable in context: with two
/// metavariable numbers to spare, `elaborate_name` gives the metavariable
/// with the number after the next, at the place of the placeholder, whose
/// type is the function type over the locals in scope, the first
/// outermost, to the metavariable with the next number, which is of type
/// `Type`; and both numbers are used up.
pub proof fn lemma_placeholder_in_context(
    s: crate::elaborate::LocalElabCxView,
    name: crate::syntax::NameView,
)
    requires
        name.repr is Placeholder,
        s.cx.metavar_counter < usize::MAX - 1,
    ensures
        ({
            let c = s.cx.metavar_counter;
            let locals = crate::elaborate::bound_names(s.locals, s.locals.len());
            let ty_meta = NameView::Meta {
                number: c,
                span: crate::span::Span::none(),
                ty: Box::new(TermView::Type),
            };
            let (r, after) = s.elaborate_name(name);
            &&& r == Ok::<NameView, crate::elaborate::ErrorView>(
                NameView::Meta {
                    number: (c + 1) as usize,
                    span: name.span,
                    ty: Box::new(TermView::abstract_pi(locals, ty_meta.to_term())),
                },
            )
            &&& after.cx.metavar_counter == c + 2
            &&& after.locals == s.locals
        }),
{
}

} // verus!
