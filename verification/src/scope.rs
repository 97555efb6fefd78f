//! Elaboration leaves no local free: whatever local a term of an elaborated
//! item mentions is bound by a binder of that item.

use vstd::prelude::*;
use crate::elaborate::{
    bind_nameless, bind_names, bound_names, find_last, motive_type, pattern_head, ElabCxView,
    LocalElabCxView, MatchTarget, Scope,
};
use crate::inductive::{
    arity, ctor_declarations, hypothesis_locals, minor_locals, minor_type, names_to_terms, peel,
    recursive_flags, recursor_of,
};
use crate::item::{DataView, ItemView};
use crate::syntax;
use crate::term::{deeper, NameView, TermView};
use crate::typeck::{
    hypotheses, index_of, CtorShapeView, DeclarationView, KindView, TyCtxtView, REDUCTION_LIMIT,
};

verus! {

/// Whether every local that occurs in `t`, binder types included, has its
/// number in `allowed`.
pub open spec fn scoped(t: TermView, allowed: Set<usize>) -> bool
    decreases t,
{
    match t {
        TermView::Var { name: NameView::Local { number, .. } } => allowed.contains(number),
        TermView::App { fun, arg, .. } => scoped(*fun, allowed) && scoped(*arg, allowed),
        TermView::Forall { binder, term, .. } => scoped(*binder.ty, allowed) && scoped(
            *term,
            allowed,
        ),
        TermView::Lambda { binder, body, .. } => scoped(*binder.ty, allowed) && scoped(
            *body,
            allowed,
        ),
        _ => true,
    }
}

/// Whether every local that occurs in `t` is one of `ls`, wherever it
/// occurs, and the type of every metavariable that occurs in `t` mentions
/// no local at all.
pub open spec fn placed(t: TermView, ls: Seq<NameView>) -> bool
    decreases t,
{
    match t {
        TermView::Var { name } => match name {
            NameView::Local { .. } => ls.contains(bare(name)),
            NameView::Meta { ty, .. } => placed(*ty, Seq::empty()),
            _ => true,
        },
        TermView::App { fun, arg, .. } => placed(*fun, ls) && placed(*arg, ls),
        TermView::Forall { binder, term, .. } => placed(*binder.ty, ls) && placed(*term, ls),
        TermView::Lambda { binder, body, .. } => placed(*binder.ty, ls) && placed(*body, ls),
        _ => true,
    }
}

/// The name at no place of the source.
pub open spec fn bare(n: NameView) -> NameView {
    n.set_span(crate::span::Span::none())
}

/// Whether the name at place `j` of `new` is a local, at no place of the
/// source, whose type mentions only locals of `ls` and locals before it in `new`.
pub open spec fn typed_at(new: Seq<NameView>, ls: Seq<NameView>, j: int) -> bool {
    match new[j] {
        NameView::Local { span, ty, .. } => span == crate::span::Span::none() && placed(
            *ty,
            ls + new.take(j),
        ),
        _ => false,
    }
}

/// Whether `new` is a telescope over `ls`: each of `new` is a local whose
/// type mentions only locals of `ls` and locals before it in `new`.
pub open spec fn telescope(new: Seq<NameView>, ls: Seq<NameView>) -> bool {
    forall|j: int| 0 <= j < new.len() ==> #[trigger] typed_at(new, ls, j)
}

/// Whether the locals in scope form a telescope over nothing.
pub open spec fn scope_ok(ls: Seq<NameView>) -> bool {
    telescope(ls, Seq::empty())
}

/// A term whose locals are all among no locals mentions no local.
pub proof fn lemma_placed_scoped(t: TermView)
    requires
        placed(t, Seq::empty()),
    ensures
        scoped(t, Set::empty()),
    decreases t,
{
    match t {
        TermView::App { fun, arg, .. } => {
            lemma_placed_scoped(*fun);
            lemma_placed_scoped(*arg);
        },
        TermView::Forall { binder, term, .. } => {
            lemma_placed_scoped(*binder.ty);
            lemma_placed_scoped(*term);
        },
        TermView::Lambda { binder, body, .. } => {
            lemma_placed_scoped(*binder.ty);
            lemma_placed_scoped(*body);
        },
        _ => {},
    }
}

/// A term that is placed among some locals is placed among any list that holds them all.
pub proof fn lemma_placed_grows(t: TermView, ls: Seq<NameView>, more: Seq<NameView>)
    requires
        placed(t, ls),
        forall|i: int| 0 <= i < ls.len() ==> more.contains(#[trigger] ls[i]),
    ensures
        placed(t, more),
    decreases t,
{
    match t {
        TermView::App { fun, arg, .. } => {
            lemma_placed_grows(*fun, ls, more);
            lemma_placed_grows(*arg, ls, more);
        },
        TermView::Forall { binder, term, .. } => {
            lemma_placed_grows(*binder.ty, ls, more);
            lemma_placed_grows(*term, ls, more);
        },
        TermView::Lambda { binder, body, .. } => {
            lemma_placed_grows(*binder.ty, ls, more);
            lemma_placed_grows(*body, ls, more);
        },
        TermView::Var { name } => {
            if name is Local {
                let i = choose|i: int| 0 <= i < ls.len() && ls[i] == bare(name);
                assert(more.contains(ls[i]));
            }
        },
        _ => {},
    }
}

/// A term that is placed among some locals is placed among them and more.
pub proof fn lemma_placed_extends(t: TermView, ls: Seq<NameView>, more: Seq<NameView>)
    requires
        placed(t, ls),
    ensures
        placed(t, ls + more),
        placed(t, more + ls),
{
    assert forall|i: int| 0 <= i < ls.len() implies (ls + more).contains(#[trigger] ls[i]) by {
        assert((ls + more)[i] == ls[i]);
    }
    assert forall|i: int| 0 <= i < ls.len() implies (more + ls).contains(#[trigger] ls[i]) by {
        assert((more + ls)[more.len() + i] == ls[i]);
    }
    lemma_placed_grows(t, ls, ls + more);
    lemma_placed_grows(t, ls, more + ls);
}

/// Closing the local `l` takes it out of what a term mentions.
pub proof fn lemma_close_placed(t: TermView, l: NameView, k: usize, ls: Seq<NameView>)
    requires
        l is Local,
        placed(t, ls.push(l)),
    ensures
        placed(t.close(l->Local_number, k), ls),
    decreases t,
{
    match t {
        TermView::App { fun, arg, .. } => {
            lemma_close_placed(*fun, l, k, ls);
            lemma_close_placed(*arg, l, k, ls);
        },
        TermView::Forall { binder, term, .. } => {
            lemma_close_placed(*binder.ty, l, k, ls);
            lemma_close_placed(*term, l, deeper(k), ls);
        },
        TermView::Lambda { binder, body, .. } => {
            lemma_close_placed(*binder.ty, l, k, ls);
            lemma_close_placed(*body, l, deeper(k), ls);
        },
        TermView::Var { name } => {
            if name is Local && name->Local_number != l->Local_number {
                let i = choose|i: int| 0 <= i < ls.push(l).len() && ls.push(l)[i] == bare(name);
                assert(i < ls.len());
                assert(ls[i] == bare(name));
            }
        },
        _ => {},
    }
}

/// Opening a bound index of a placed term with a placed term gives a placed term.
pub proof fn lemma_open_placed(t: TermView, a: TermView, k: usize, ls: Seq<NameView>)
    requires
        placed(t, ls),
        placed(a, ls),
    ensures
        placed(t.open_with(a, k), ls),
    decreases t,
{
    match t {
        TermView::App { fun, arg, .. } => {
            lemma_open_placed(*fun, a, k, ls);
            lemma_open_placed(*arg, a, k, ls);
        },
        TermView::Forall { binder, term, .. } => {
            lemma_open_placed(*binder.ty, a, k, ls);
            lemma_open_placed(*term, a, deeper(k), ls);
        },
        TermView::Lambda { binder, body, .. } => {
            lemma_open_placed(*binder.ty, a, k, ls);
            lemma_open_placed(*body, a, deeper(k), ls);
        },
        _ => {},
    }
}

/// Instantiating the binders of a placed term with placed terms gives a placed term.
pub proof fn lemma_instantiate_all_placed(t: TermView, args: Seq<TermView>, ls: Seq<NameView>)
    requires
        placed(t, ls),
        forall|i: int| 0 <= i < args.len() ==> placed(#[trigger] args[i], ls),
    ensures
        placed(t.instantiate_all(args), ls),
    decreases args.len(),
{
    if args.len() > 0 {
        let rest = args.drop_first();
        assert forall|i: int| 0 <= i < rest.len() implies placed(#[trigger] rest[i], ls) by {
            assert(rest[i] == args[i + 1]);
        }
        assert(placed(args[0], ls));
        match t {
            TermView::Forall { term, .. } => lemma_open_placed(*term, args[0], 0, ls),
            TermView::Lambda { body, .. } => lemma_open_placed(*body, args[0], 0, ls),
            _ => {},
        }
        lemma_instantiate_all_placed(t.instantiate(args[0]), rest, ls);
    }
}

/// An application of a placed head to placed arguments is placed.
pub proof fn lemma_apply_all_placed(f: TermView, args: Seq<TermView>, ls: Seq<NameView>)
    requires
        placed(f, ls),
        forall|i: int| 0 <= i < args.len() ==> placed(#[trigger] args[i], ls),
    ensures
        placed(TermView::apply_all(f, args), ls),
    decreases args.len(),
{
    if args.len() > 0 {
        let rest = args.drop_first();
        assert forall|i: int| 0 <= i < rest.len() implies placed(#[trigger] rest[i], ls) by {
            assert(rest[i] == args[i + 1]);
        }
        assert(placed(args[0], ls));
        let head = TermView::App {
            span: crate::span::Span::none(),
            fun: Box::new(f),
            arg: Box::new(args[0]),
        };
        lemma_apply_all_placed(head, rest, ls);
    }
}

/// The head and the arguments of a placed spine are placed.
pub proof fn lemma_spine_placed(t: TermView, ls: Seq<NameView>)
    requires
        placed(t, ls),
    ensures
        placed(t.head(), ls),
        forall|i: int| 0 <= i < t.args().len() ==> placed(#[trigger] t.args()[i], ls),
    decreases t,
{
    match t {
        TermView::App { fun, arg, .. } => {
            lemma_spine_placed(*fun, ls);
            let args = t.args();
            assert forall|i: int| 0 <= i < args.len() implies placed(#[trigger] args[i], ls) by {
                if i < fun.args().len() {
                    assert(args[i] == fun.args()[i]);
                } else {
                    assert(args[i] == *arg);
                }
            }
        },
        _ => {},
    }
}

/// The variables that name the locals of a list are placed among them.
pub proof fn lemma_names_placed(locals: Seq<NameView>, ls: Seq<NameView>)
    requires
        forall|i: int|
            0 <= i < locals.len() ==> (#[trigger] locals[i]) is Local && ls.contains(
                bare(locals[i]),
            ),
    ensures
        forall|i: int|
            0 <= i < names_to_terms(locals, locals.len()).len() ==> placed(
                #[trigger] names_to_terms(locals, locals.len())[i],
                ls,
            ),
{
    crate::theorems::lemma_names_to_terms(locals);
    let terms = names_to_terms(locals, locals.len());
    assert forall|i: int| 0 <= i < terms.len() implies placed(#[trigger] terms[i], ls) by {
        assert(locals[i] is Local && ls.contains(bare(locals[i])));
        assert(terms[i] == locals[i].to_term());
    }
}


/// Abstracting a telescope over `ls` out of a term placed among `ls` and the
/// telescope leaves a term placed among `ls`.
pub proof fn lemma_abstract_placed(pi: bool, new: Seq<NameView>, t: TermView, ls: Seq<NameView>)
    requires
        telescope(new, ls),
        placed(t, ls + new),
    ensures
        placed(TermView::abstract_over(pi, new, t), ls),
    decreases new.len(),
{
    if new.len() == 0 {
        assert(ls + new =~= ls);
    } else {
        let rest = new.drop_first();
        let wider = ls.push(new[0]);
        assert(typed_at(new, ls, 0));
        assert(new.take(0) =~= Seq::<NameView>::empty());
        assert(ls + new.take(0) =~= ls);
        assert forall|j: int| 0 <= j < rest.len() implies #[trigger] typed_at(rest, wider, j) by {
            assert(typed_at(new, ls, j + 1));
            assert(rest[j] == new[j + 1]);
            assert(wider + rest.take(j) =~= ls + new.take(j + 1));
        }
        assert(wider + rest =~= ls + new);
        lemma_abstract_placed(pi, rest, t, wider);
        lemma_close_placed(TermView::abstract_over(pi, rest, t), new[0], 0, ls);
    }
}

/// A telescope over a scope that is in order extends the scope in order.
pub proof fn lemma_scope_extends(ls: Seq<NameView>, new: Seq<NameView>)
    requires
        scope_ok(ls),
        telescope(new, ls),
    ensures
        scope_ok(ls + new),
{
    let all = ls + new;
    assert forall|j: int| 0 <= j < all.len() implies #[trigger] typed_at(
        all,
        Seq::empty(),
        j,
    ) by {
        if j < ls.len() {
            assert(typed_at(ls, Seq::empty(), j));
            assert(all.take(j) =~= ls.take(j));
        } else {
            assert(typed_at(new, ls, j - ls.len()));
            assert(all[j] == new[j - ls.len()]);
            assert(Seq::<NameView>::empty() + all.take(j) =~= ls + new.take(j - ls.len()));
        }
    }
}

/// The type of a local of a scope that is in order is placed in the scope,
/// wherever the local occurs.
pub proof fn lemma_scope_type_placed(ls: Seq<NameView>, n: NameView)
    requires
        scope_ok(ls),
        n is Local,
        ls.contains(bare(n)),
    ensures
        placed(*n->Local_ty, ls),
{
    let i = choose|i: int| 0 <= i < ls.len() && ls[i] == bare(n);
    assert(typed_at(ls, Seq::empty(), i));
    assert(Seq::<NameView>::empty() + ls.take(i) =~= ls.take(i));
    assert(ls.take(i) + ls.skip(i) =~= ls);
    lemma_placed_extends(*n->Local_ty, ls.take(i), ls.skip(i));
}

/// Whether a declaration mentions no local: neither its type nor, for a
/// definition, its body; the recursor of a datatype must be a global.
pub open spec fn declaration_closed(d: DeclarationView) -> bool {
    &&& placed(d.ty, Seq::empty())
    &&& match d.kind {
        KindView::Definition { body, .. } => placed(body, Seq::empty()),
        KindView::Datatype { recursor, .. } => recursor is Qual,
        _ => true,
    }
}

/// Whether no declaration of the context mentions a local.
pub open spec fn context_closed(cx: TyCtxtView) -> bool {
    forall|i: int|
        0 <= i < cx.declarations.len() ==> declaration_closed(#[trigger] cx.declarations[i])
}

/// What a lookup finds is a declaration of the context.
pub proof fn lemma_index_of(decls: Seq<DeclarationView>, n: NameView, i: int)
    requires
        0 <= i <= decls.len(),
    ensures
        i <= index_of(decls, n, i) <= decls.len(),
    decreases decls.len() - i,
{
    if i < decls.len() && !decls[i].name.same(n) {
        lemma_index_of(decls, n, i + 1);
    }
}

/// What is declared in a closed context mentions no local.
pub proof fn lemma_lookup_closed(cx: TyCtxtView, n: NameView)
    requires
        context_closed(cx),
        cx.lookup(n) is Some,
    ensures
        declaration_closed(cx.lookup(n)->0),
{
    lemma_index_of(cx.declarations, n, 0);
}

/// The induction hypotheses of placed fields under a placed prefix are placed.
pub proof fn lemma_hypotheses_placed(
    prefix: TermView,
    recursive: Seq<bool>,
    fields: Seq<TermView>,
    n: nat,
    ls: Seq<NameView>,
)
    requires
        placed(prefix, ls),
        forall|i: int| 0 <= i < fields.len() ==> placed(#[trigger] fields[i], ls),
    ensures
        forall|i: int|
            0 <= i < hypotheses(prefix, recursive, fields, n).len() ==> placed(
                #[trigger] hypotheses(prefix, recursive, fields, n)[i],
                ls,
            ),
    decreases n,
{
    if n == 0 || n > fields.len() {
    } else {
        lemma_hypotheses_placed(prefix, recursive, fields, (n - 1) as nat, ls);
        assert(placed(fields[n - 1], ls));
        let before = hypotheses(prefix, recursive, fields, (n - 1) as nat);
        let all = hypotheses(prefix, recursive, fields, n);
        assert forall|i: int| 0 <= i < all.len() implies placed(#[trigger] all[i], ls) by {
            if i < before.len() {
                assert(all[i] == before[i]);
            }
        }
    }
}

/// One step of reduction in a closed context keeps a placed term placed.
pub proof fn lemma_step_placed(cx: TyCtxtView, depth: nat, t: TermView, ls: Seq<NameView>)
    requires
        context_closed(cx),
        placed(t, ls),
    ensures
        cx.step(depth, t) matches Some(next) ==> placed(next, ls),
    decreases depth, 1nat,
{
    lemma_spine_placed(t, ls);
    let args = t.args();
    match t.head() {
        TermView::Lambda { body, .. } => {
            if args.len() > 0 {
                assert(placed(args[0], ls));
                lemma_open_placed(*body, args[0], 0, ls);
                let rest = args.subrange(1, args.len() as int);
                assert forall|i: int| 0 <= i < rest.len() implies placed(#[trigger] rest[i], ls) by {
                    assert(rest[i] == args[i + 1]);
                }
                lemma_apply_all_placed(body.open_with(args[0], 0), rest, ls);
            }
        },
        TermView::Var { name } => {
            if name is Qual {
                match cx.lookup(name) {
                    Some(d) => {
                        lemma_lookup_closed(cx, name);
                        match d.kind {
                            KindView::Definition { body, reduction, .. } => {
                                lemma_placed_extends(body, Seq::empty(), ls);
                                assert(Seq::<NameView>::empty() + ls =~= ls);
                                lemma_apply_all_placed(body, args, ls);
                            },
                            KindView::Recursor { datatype, params, ctors } => {
                                lemma_iota_placed(cx, depth, t.head(), datatype, params, ctors, args, ls);
                            },
                            _ => {},
                        }
                    },
                    None => {},
                }
            }
        },
        _ => {},
    }
}

/// The step of a recursor in a closed context keeps placed terms placed.
pub proof fn lemma_iota_placed(
    cx: TyCtxtView,
    depth: nat,
    head: TermView,
    datatype: NameView,
    params: usize,
    ctors: Seq<CtorShapeView>,
    args: Seq<TermView>,
    ls: Seq<NameView>,
)
    requires
        context_closed(cx),
        placed(head, ls),
        forall|i: int| 0 <= i < args.len() ==> placed(#[trigger] args[i], ls),
    ensures
        cx.iota(depth, head, datatype, params, ctors, args) matches Some(next) ==> placed(next, ls),
    decreases depth, 0nat,
{
    let major_at = params + 1 + ctors.len();
    if args.len() > major_at {
        let major = args[major_at];
        assert(placed(major, ls));
        let before = args.subrange(0, major_at);
        let rest = args.subrange(major_at + 1, args.len() as int);
        assert forall|i: int| 0 <= i < before.len() implies placed(#[trigger] before[i], ls) by {
            assert(before[i] == args[i]);
        }
        assert forall|i: int| 0 <= i < rest.len() implies placed(#[trigger] rest[i], ls) by {
            assert(rest[i] == args[major_at + 1 + i]);
        }
        match cx.constructor_of(datatype, params, major) {
            Some(i) => {
                if i < ctors.len() {
                    lemma_spine_placed(major, ls);
                    let fields = major.args().subrange(params as int, major.args().len() as int);
                    assert forall|k: int| 0 <= k < fields.len() implies placed(
                        #[trigger] fields[k],
                        ls,
                    ) by {
                        assert(fields[k] == major.args()[params + k]);
                    }
                    let prefix = TermView::apply_all(head, before);
                    lemma_apply_all_placed(head, before, ls);
                    let hyps = hypotheses(prefix, ctors[i as int].recursive, fields, fields.len());
                    lemma_hypotheses_placed(prefix, ctors[i as int].recursive, fields, fields.len(), ls);
                    let all = fields + hyps + rest;
                    assert forall|k: int| 0 <= k < all.len() implies placed(#[trigger] all[k], ls) by {
                        if k < fields.len() {
                            assert(all[k] == fields[k]);
                        } else if k < fields.len() + hyps.len() {
                            assert(all[k] == hyps[k - fields.len()]);
                        } else {
                            assert(all[k] == rest[k - fields.len() - hyps.len()]);
                        }
                    }
                    assert(placed(args[params + 1 + i], ls));
                    lemma_apply_all_placed(args[params + 1 + i], all, ls);
                }
            },
            None => {
                if depth > 0 {
                    lemma_step_placed(cx, (depth - 1) as nat, major, ls);
                    match cx.step((depth - 1) as nat, major) {
                        Some(next) => {
                            let all = before.push(next) + rest;
                            assert forall|k: int| 0 <= k < all.len() implies placed(
                                #[trigger] all[k],
                                ls,
                            ) by {
                                if k < before.len() {
                                    assert(all[k] == before[k]);
                                } else if k == before.len() {
                                    assert(all[k] == next);
                                } else {
                                    assert(all[k] == rest[k - before.len() - 1]);
                                }
                            }
                            lemma_apply_all_placed(head, all, ls);
                        },
                        None => {},
                    }
                }
            },
        }
    }
}

/// Evaluation in a closed context keeps a placed term placed.
pub proof fn lemma_eval_within_placed(cx: TyCtxtView, fuel: nat, t: TermView, ls: Seq<NameView>)
    requires
        context_closed(cx),
        placed(t, ls),
    ensures
        cx.eval_within(fuel, t) matches Some(r) ==> placed(r, ls),
    decreases fuel,
{
    lemma_step_placed(cx, REDUCTION_LIMIT as nat, t, ls);
    match cx.step(REDUCTION_LIMIT as nat, t) {
        None => {},
        Some(next) => {
            if fuel > 0 {
                lemma_eval_within_placed(cx, (fuel - 1) as nat, next, ls);
            }
        },
    }
}

/// Evaluation in a closed context keeps a placed term placed.
pub proof fn lemma_eval_placed(cx: TyCtxtView, t: TermView, ls: Seq<NameView>)
    requires
        context_closed(cx),
        placed(t, ls),
    ensures
        cx.eval(t) matches Ok(r) ==> placed(r, ls),
{
    lemma_eval_within_placed(cx, REDUCTION_LIMIT as nat, t, ls);
}


/// The type that is inferred for a placed term in a closed context is placed, and
/// inference declares nothing.
pub proof fn lemma_infer_placed(cx: TyCtxtView, fuel: nat, t: TermView, ls: Seq<NameView>)
    requires
        context_closed(cx),
        scope_ok(ls),
        placed(t, ls),
    ensures
        cx.infer(fuel, t).1.declarations == cx.declarations,
        cx.infer(fuel, t).0 matches Ok(typing) ==> placed(typing.ty, ls),
    decreases fuel, 0nat,
{
    if fuel > 0 {
        match t {
            TermView::Var { name } => match name {
                NameView::Local { ty, .. } => {
                    lemma_scope_type_placed(ls, name);
                },
                NameView::Meta { ty, .. } => {
                    lemma_placed_extends(*ty, Seq::empty(), ls);
                    assert(Seq::<NameView>::empty() + ls =~= ls);
                },
                NameView::Qual { .. } => {
                    if cx.lookup(name) is Some {
                        lemma_lookup_closed(cx, name);
                        lemma_placed_extends(cx.lookup(name)->0.ty, Seq::empty(), ls);
                        assert(Seq::<NameView>::empty() + ls =~= ls);
                    }
                },
                _ => {},
            },
            TermView::App { span, fun, arg } => {
                lemma_infer_placed(cx, (fuel - 1) as nat, *fun, ls);
                let (first, c1) = cx.infer((fuel - 1) as nat, *fun);
                if first is Ok {
                    lemma_infer_placed(c1, (fuel - 1) as nat, *arg, ls);
                    let (second, c2) = c1.infer((fuel - 1) as nat, *arg);
                    if second is Ok {
                        lemma_eval_placed(c2, first->Ok_0.ty, ls);
                        match c2.eval(first->Ok_0.ty) {
                            Ok(TermView::Forall { binder, term, .. }) => {
                                lemma_open_placed(*term, *arg, 0, ls);
                            },
                            _ => {},
                        }
                    }
                }
            },
            TermView::Forall { binder, term, .. } => {
                lemma_infer_under_placed(cx, (fuel - 1) as nat, binder, *term, ls);
            },
            TermView::Lambda { binder, body, .. } => {
                if cx.local_counter != usize::MAX {
                    lemma_infer_under_placed(cx, (fuel - 1) as nat, binder, *body, ls);
                    let local = cx.next_local(binder.name.repr(), *binder.ty);
                    let (inner, c1) = cx.infer_under((fuel - 1) as nat, binder, *body);
                    if inner is Ok {
                        let single = seq![local];
                        assert(single.take(0) =~= Seq::<NameView>::empty());
                        assert(ls + single.take(0) =~= ls);
                        assert(typed_at(single, ls, 0));
                        assert(ls + single =~= ls.push(local));
                        lemma_abstract_placed(true, single, inner->Ok_0.ty, ls);
                    }
                }
            },
            _ => {},
        }
    }
}

/// The type that is inferred under a binder is placed among the locals in
/// scope and the local that stands for the bound variable.
pub proof fn lemma_infer_under_placed(
    cx: TyCtxtView,
    fuel: nat,
    binder: crate::term::BinderView,
    body: TermView,
    ls: Seq<NameView>,
)
    requires
        context_closed(cx),
        scope_ok(ls),
        placed(*binder.ty, ls),
        placed(body, ls),
    ensures
        cx.infer_under(fuel, binder, body).1.declarations == cx.declarations,
        cx.infer_under(fuel, binder, body).0 matches Ok(typing) ==> placed(
            typing.ty,
            ls.push(cx.next_local(binder.name.repr(), *binder.ty)),
        ),
    decreases fuel, 1nat,
{
    if cx.local_counter != usize::MAX {
        let local = cx.next_local(binder.name.repr(), *binder.ty);
        let wider = ls.push(local);
        lemma_infer_placed(cx.minted(), fuel, *binder.ty, ls);
        let (first, c1) = cx.minted().infer(fuel, *binder.ty);
        if first is Ok {
            let single = seq![local];
            assert(single.take(0) =~= Seq::<NameView>::empty());
            assert(ls + single.take(0) =~= ls);
            assert(typed_at(single, ls, 0));
            lemma_scope_extends(ls, single);
            assert(ls + single =~= wider);
            lemma_placed_extends(body, ls, single);
            assert(wider.contains(local)) by {
                assert(wider[ls.len() as int] == local);
            }
            lemma_open_placed(body, local.to_term(), 0, wider);
            lemma_infer_placed(c1, fuel, body.open_with(local.to_term(), 0), wider);
        }
    }
}

/// The type that is inferred for a placed term in a closed context is placed.
pub proof fn lemma_type_infer_placed(cx: TyCtxtView, t: TermView, ls: Seq<NameView>)
    requires
        context_closed(cx),
        scope_ok(ls),
        placed(t, ls),
    ensures
        cx.type_infer_term(t).1.declarations == cx.declarations,
        cx.type_infer_term(t).0 matches Ok(typing) ==> placed(typing.ty, ls),
{
    lemma_infer_placed(cx, deeper(crate::infer::height(t)) as nat, t, ls);
}

/// The binders taken off a placed function type form a telescope, and what
/// is left of the type is placed among the locals in scope and the telescope.
pub proof fn lemma_peel_placed(ty: TermView, next: usize, n: nat, ls: Seq<NameView>)
    requires
        placed(ty, ls),
    ensures
        telescope(peel(ty, next, n).fields, ls),
        placed(peel(ty, next, n).rest, ls + peel(ty, next, n).fields),
    decreases n,
{
    if n == 0 {
        assert(ls + Seq::<NameView>::empty() =~= ls);
    } else {
        lemma_peel_placed(ty, next, (n - 1) as nat, ls);
        let before = peel(ty, next, (n - 1) as nat);
        match (before.rest, before.next) {
            (TermView::Forall { binder, term, .. }, Some(number)) => {
                if number != usize::MAX {
                    let local = NameView::Local {
                        span: crate::span::Span::none(),
                        number,
                        repr: binder.name.repr(),
                        ty: binder.ty,
                    };
                    let fields = before.fields.push(local);
                    let wider = ls + fields;
                    assert forall|j: int| 0 <= j < fields.len() implies #[trigger] typed_at(
                        fields,
                        ls,
                        j,
                    ) by {
                        if j < before.fields.len() {
                            assert(typed_at(before.fields, ls, j));
                            assert(fields.take(j) =~= before.fields.take(j));
                        } else {
                            assert(fields.take(j) =~= before.fields);
                        }
                    }
                    assert(wider =~= (ls + before.fields) + seq![local]);
                    lemma_placed_extends(*term, ls + before.fields, seq![local]);
                    assert(wider.contains(local)) by {
                        assert(wider[wider.len() - 1] == local);
                    }
                    lemma_open_placed(*term, local.to_term(), 0, wider);
                }
            },
            _ => {},
        }
    }
}

/// The locals that stand for induction hypotheses extend the telescope of the fields.
pub proof fn lemma_hypothesis_locals_placed(
    motive: TermView,
    fields: Seq<NameView>,
    flags: Seq<bool>,
    next: usize,
    n: nat,
    ls: Seq<NameView>,
)
    requires
        placed(motive, ls),
        telescope(fields, ls),
    ensures
        telescope(fields + hypothesis_locals(motive, fields, flags, next, n).locals, ls),
    decreases n,
{
    if n == 0 || n > fields.len() {
        assert(fields + Seq::<NameView>::empty() =~= fields);
    } else {
        lemma_hypothesis_locals_placed(motive, fields, flags, next, (n - 1) as nat, ls);
        let before = hypothesis_locals(motive, fields, flags, next, (n - 1) as nat);
        let after = hypothesis_locals(motive, fields, flags, next, n);
        if after.locals.len() != before.locals.len() {
            let old = fields + before.locals;
            let all = fields + after.locals;
            let last = after.locals[after.locals.len() - 1];
            assert(all =~= old.push(last));
            assert(typed_at(fields, ls, n - 1));
            assert forall|j: int| 0 <= j < all.len() implies #[trigger] typed_at(all, ls, j) by {
                if j < old.len() {
                    assert(typed_at(old, ls, j));
                    assert(all.take(j) =~= old.take(j));
                } else {
                    assert(all.take(j) =~= old);
                    let wider = ls + old;
                    lemma_placed_extends(motive, ls, old);
                    assert(wider.contains(fields[n - 1])) by {
                        assert(wider[ls.len() + (n - 1)] == fields[n - 1]);
                    }
                    assert(fields[n - 1] is Local);
                    assert(all[j] == last);
                    assert(last == NameView::Local {
                        span: crate::span::Span::none(),
                        number: before.next->0,
                        repr: "ih"@,
                        ty: Box::new(
                            TermView::App {
                                span: crate::span::Span::none(),
                                fun: Box::new(motive),
                                arg: Box::new(fields[n - 1].to_term()),
                            },
                        ),
                    });
                    assert(placed(fields[n - 1].to_term(), wider));
                }
            }
        } else {
            assert(after.locals == before.locals);
        }
    }
}

/// The core names of a scope, entry by entry.
pub proof fn lemma_bound_names(entries: Scope, n: nat)
    requires
        n <= entries.len(),
    ensures
        bound_names(entries, n).len() == n,
        forall|i: int| 0 <= i < n ==> bound_names(entries, n)[i] == entries[i].1,
    decreases n,
{
    if n > 0 {
        lemma_bound_names(entries, (n - 1) as nat);
    }
}

/// The entries that bind names to locals hold the locals in order.
pub proof fn lemma_bind_names(names: Seq<syntax::NameView>, locals: Seq<NameView>, n: nat)
    requires
        n <= names.len(),
        n <= locals.len(),
    ensures
        bind_names(names, locals, n).len() == n,
        forall|i: int| 0 <= i < n ==> (#[trigger] bind_names(names, locals, n)[i]).1 == locals[i],
    decreases n,
{
    if n > 0 {
        lemma_bind_names(names, locals, (n - 1) as nat);
    }
}

/// The entries that hold locals under no name hold them in order.
pub proof fn lemma_bind_nameless(locals: Seq<NameView>, n: nat)
    requires
        n <= locals.len(),
    ensures
        bind_nameless(locals, n).len() == n,
        forall|i: int| 0 <= i < n ==> (#[trigger] bind_nameless(locals, n)[i]).1 == locals[i],
    decreases n,
{
    if n > 0 {
        lemma_bind_nameless(locals, (n - 1) as nat);
    }
}

/// The names in scope: the core names of the entries, in order.
pub open spec fn scope_names(locals: Scope) -> Seq<NameView> {
    bound_names(locals, locals.len())
}

/// Whether every global that the module has recorded is a qualified name.
pub open spec fn globals_qualified(globals: Scope) -> bool {
    forall|i: int| 0 <= i < globals.len() ==> (#[trigger] globals[i]).1 is Qual
}

/// Whether the state of an elaboration is in order: the recorded globals
/// are qualified names, no declaration mentions a local, and the locals in
/// scope form a telescope.
pub open spec fn in_order(s: LocalElabCxView) -> bool {
    &&& globals_qualified(s.cx.globals)
    &&& context_closed(s.cx.cx)
    &&& scope_ok(scope_names(s.locals))
}

/// Whether two states have the same globals, the same constructor names
/// and the same declarations.
pub open spec fn same_globals(a: LocalElabCxView, b: LocalElabCxView) -> bool {
    a.cx.globals == b.cx.globals && a.cx.constructors == b.cx.constructors
        && a.cx.cx.declarations == b.cx.cx.declarations
}

/// What a lookup finds is the core name of an entry.
pub proof fn lemma_find_last(entries: Scope, key: syntax::NameView, n: nat)
    requires
        n <= entries.len(),
        find_last(entries, key, n) is Some,
    ensures
        exists|i: int| 0 <= i < n && (#[trigger] entries[i]).1 == find_last(entries, key, n)->0,
    decreases n,
{
    if n > 0 {
        if entries[n - 1].0.same(key) {
            assert(entries[n - 1].1 == find_last(entries, key, n)->0);
        } else {
            lemma_find_last(entries, key, (n - 1) as nat);
            let i = choose|i: int|
                0 <= i < n - 1 && (#[trigger] entries[i]).1 == find_last(
                    entries,
                    key,
                    (n - 1) as nat,
                )->0;
            assert(entries[i].1 == find_last(entries, key, n)->0);
        }
    }
}

/// A name that is resolved is a local in scope or a global.
pub proof fn lemma_resolve_placed(s: LocalElabCxView, name: syntax::NameView, span: crate::span::Span)
    requires
        in_order(s),
        s.resolve(name) is Some,
    ensures
        placed(s.resolve(name)->0.set_span(span).to_term(), scope_names(s.locals)),
{
    let names = scope_names(s.locals);
    match find_last(s.locals, name, s.locals.len()) {
        Some(local) => {
            lemma_find_last(s.locals, name, s.locals.len());
            let i = choose|i: int|
                0 <= i < s.locals.len() && (#[trigger] s.locals[i]).1 == find_last(
                    s.locals,
                    name,
                    s.locals.len(),
                )->0;
            lemma_bound_names(s.locals, s.locals.len());
            assert(names[i] == local);
            assert(typed_at(names, Seq::empty(), i));
        },
        None => {
            match find_last(s.cx.globals, name, s.cx.globals.len()) {
                Some(q) => {
                    lemma_find_last(s.cx.globals, name, s.cx.globals.len());
                },
                None => {},
            }
        },
    }
}

/// Every name of a scope that is in order is a local of the scope.
pub proof fn lemma_scope_locals(ls: Seq<NameView>)
    requires
        scope_ok(ls),
    ensures
        forall|i: int|
            0 <= i < ls.len() ==> (#[trigger] ls[i]) is Local && bare(ls[i]) == ls[i]
                && ls.contains(bare(ls[i])),
{
    assert forall|i: int| 0 <= i < ls.len() implies (#[trigger] ls[i]) is Local && bare(ls[i])
        == ls[i] && ls.contains(bare(ls[i])) by {
        assert(typed_at(ls, Seq::empty(), i));
    }
}

/// A metavariable in context is placed among the locals in scope, if its type is.
pub proof fn lemma_meta_in_context_placed(s: LocalElabCxView, ty: TermView)
    requires
        in_order(s),
        placed(ty, scope_names(s.locals)),
    ensures
        s.meta_in_context(ty).1.locals == s.locals,
        same_globals(s.meta_in_context(ty).1, s),
        s.meta_in_context(ty).0 matches Ok(t) ==> placed(t, scope_names(s.locals)),
{
    let locals = scope_names(s.locals);
    lemma_scope_locals(locals);
    lemma_names_placed(locals, locals);
    assert(Seq::<NameView>::empty() + locals =~= locals);
    lemma_abstract_placed(true, locals, ty, Seq::empty());
    let (m, cx) = s.cx.meta(TermView::abstract_pi(locals, ty));
    if m is Ok {
        lemma_apply_all_placed(m->Ok_0.to_term(), names_to_terms(locals, locals.len()), locals);
    }
}

/// The metavariable that a placeholder becomes has a type that mentions no
/// local, and applied to the locals in scope it is placed among them.
pub proof fn lemma_placeholder_placed(s: LocalElabCxView, span: crate::span::Span)
    requires
        in_order(s),
    ensures
        s.placeholder_name().1.locals == s.locals,
        same_globals(s.placeholder_name().1, s),
        s.placeholder_name().0 matches Ok(m) ==> m is Meta && placed(
            m.set_span(span).to_term(),
            scope_names(s.locals),
        ),
        s.placeholder_term(span).1 == s.placeholder_name().1,
        s.placeholder_term(span).0 matches Ok(t) ==> placed(t, scope_names(s.locals)),
{
    let locals = scope_names(s.locals);
    let (ty, cx) = s.cx.meta(TermView::Type);
    if ty is Ok {
        assert(placed(TermView::Type, Seq::empty()));
        assert(ty->Ok_0 == NameView::Meta {
            span: crate::span::Span::none(),
            number: s.cx.metavar_counter,
            ty: Box::new(TermView::Type),
        });
        assert(placed(ty->Ok_0.to_term(), locals));
        lemma_scope_locals(locals);
        lemma_names_placed(locals, locals);
        assert(Seq::<NameView>::empty() + locals =~= locals);
        lemma_abstract_placed(true, locals, ty->Ok_0.to_term(), Seq::empty());
        let (m, s1) = s.with(cx).meta_name_in_context(ty->Ok_0.to_term());
        if m is Ok {
            assert(placed(m->Ok_0.set_span(span).to_term(), locals));
            lemma_apply_all_placed(
                m->Ok_0.set_span(span).to_term(),
                names_to_terms(locals, locals.len()),
                locals,
            );
        }
    }
}

/// What a variable of the source becomes is placed among the locals in scope.
pub proof fn lemma_var_placed(s: LocalElabCxView, name: syntax::NameView)
    requires
        in_order(s),
    ensures
        s.elaborate_var(name).1.locals == s.locals,
        same_globals(s.elaborate_var(name).1, s),
        s.elaborate_var(name).0 matches Ok(t) ==> placed(t, scope_names(s.locals)),
{
    match s.resolve(name) {
        Some(n) => {
            lemma_resolve_placed(s, name, name.span);
        },
        None => {
            if name.repr is Placeholder {
                lemma_placeholder_placed(s, name.span);
            }
        },
    }
}

/// The datatype that a placed scrutinee is of has placed parameters, and
/// its recursor is a global.
pub proof fn lemma_scrutinee_type_placed(s: LocalElabCxView, span: crate::span::Span, escrut: TermView)
    requires
        in_order(s),
        placed(escrut, scope_names(s.locals)),
    ensures
        s.scrutinee_type(span, escrut).1.locals == s.locals,
        same_globals(s.scrutinee_type(span, escrut).1, s),
        s.scrutinee_type(span, escrut).0 matches Ok(target) ==> {
            &&& placed(target.ty, scope_names(s.locals))
            &&& target.recursor is Qual
            &&& forall|i: int|
                0 <= i < target.params.len() ==> placed(
                    #[trigger] target.params[i],
                    scope_names(s.locals),
                )
        },
{
    let names = scope_names(s.locals);
    lemma_type_infer_placed(s.cx.cx, escrut, names);
    let (typing, cx) = s.cx.cx.type_infer_term(escrut);
    if typing is Ok {
        lemma_eval_placed(cx, typing->Ok_0.ty, names);
        match cx.eval(typing->Ok_0.ty) {
            Ok(ty) => {
                lemma_spine_placed(ty, names);
                match ty.head() {
                    TermView::Var { name } => {
                        if cx.lookup(name) is Some {
                            lemma_lookup_closed(cx, name);
                        }
                    },
                    _ => {},
                }
            },
            Err(_) => {},
        }
    }
}


/// The binders of a function type, a lambda or a `let`.
pub open spec fn binders_of(t: syntax::TermView) -> Seq<syntax::BinderView> {
    match t {
        syntax::TermView::Forall { binders, .. } => binders,
        syntax::TermView::Lambda { args, .. } => args,
        syntax::TermView::Let { binders, .. } => binders,
        _ => Seq::empty(),
    }
}

/// The term under the binders of a function type, a lambda or a `let`.
pub open spec fn body_of(t: syntax::TermView) -> syntax::TermView {
    match t {
        syntax::TermView::Forall { term, .. } => *term,
        syntax::TermView::Lambda { body, .. } => *body,
        syntax::TermView::Let { body, .. } => *body,
        _ => t,
    }
}

/// What elaboration of a term gives is placed among the locals in scope;
/// the scope is afterwards what it was, and neither the globals of the
/// module nor the declarations are touched.
pub proof fn lemma_term_placed(s: LocalElabCxView, term: syntax::TermView)
    requires
        in_order(s),
    ensures
        same_globals(s.elaborate_term(term).1, s),
        s.elaborate_term(term).0 matches Ok(t) ==> placed(t, scope_names(s.locals))
            && s.elaborate_term(term).1.locals == s.locals,
    decreases term, 1nat,
{
    match term {
        syntax::TermView::Var { name } => {
            lemma_var_placed(s, name);
        },
        syntax::TermView::App { span, fun, arg } => {
            lemma_term_placed(s, *fun);
            let (first, s1) = s.elaborate_term(*fun);
            if first is Ok {
                lemma_term_placed(s1, *arg);
            }
        },
        syntax::TermView::Forall { .. } => {
            lemma_binder_term_placed(s, true, term);
        },
        syntax::TermView::Lambda { .. } => {
            lemma_binder_term_placed(s, false, term);
        },
        syntax::TermView::Let { binders, values, body, .. } => {
            lemma_terms_placed(s, values, values.len());
            let (bound, s1) = s.elaborate_terms(values, values.len());
            if bound is Ok {
                lemma_binder_term_placed(s1, false, term);
                let (entered, s2) = s1.enter_scope(binders, binders.len());
                if entered is Ok {
                    let (inner, s3) = s2.elaborate_term(*body);
                    if inner is Ok {
                        lemma_apply_all_placed(
                            TermView::abstract_lambda(entered->Ok_0, inner->Ok_0),
                            bound->Ok_0,
                            scope_names(s.locals),
                        );
                    }
                }
            }
        },
        syntax::TermView::Match { .. } => {
            lemma_match_placed(s, term);
        },
        _ => {},
    }
}

/// A term under binders: entering the scope, elaborating the term and
/// abstracting over the new locals gives a term that is placed among the
/// locals that were in scope before.
pub proof fn lemma_binder_term_placed(s: LocalElabCxView, pi: bool, term: syntax::TermView)
    requires
        in_order(s),
        term is Forall || term is Lambda || term is Let,
    ensures
        ({
            let binders = binders_of(term);
            let (entered, s1) = s.enter_scope(binders, binders.len());
            let (inner, s2) = s1.elaborate_term(body_of(term));
            &&& same_globals(s1, s)
            &&& entered is Ok ==> {
                &&& same_globals(s2, s)
                &&& inner is Ok ==> {
                    &&& placed(
                        TermView::abstract_over(pi, entered->Ok_0, inner->Ok_0),
                        scope_names(s.locals),
                    )
                    &&& s2.leave_scope(s.locals.len()).locals == s.locals
                }
            }
        }),
    decreases term, 0nat,
{
    let binders = binders_of(term);
    let body = body_of(term);
    lemma_enter_placed(s, binders, binders.len());
    let (entered, s1) = s.enter_scope(binders, binders.len());
    if entered is Ok {
        let locals = entered->Ok_0;
        lemma_scope_extends(scope_names(s.locals), locals);
        lemma_term_placed(s1, body);
        let (inner, s2) = s1.elaborate_term(body);
        if inner is Ok {
            lemma_abstract_placed(pi, locals, inner->Ok_0, scope_names(s.locals));
            assert(s2.locals.subrange(0, s.locals.len() as int) =~= s.locals);
        }
    }
}

/// Entering a scope extends it by a telescope over the locals that were in
/// scope: what was in scope stays, and the new locals follow in order.
pub proof fn lemma_enter_placed(s: LocalElabCxView, binders: Seq<syntax::BinderView>, n: nat)
    requires
        in_order(s),
    ensures
        same_globals(s.enter_scope(binders, n).1, s),
        s.enter_scope(binders, n).0 matches Ok(locals) ==> {
            let s1 = s.enter_scope(binders, n).1;
            &&& telescope(locals, scope_names(s.locals))
            &&& s1.locals.len() == s.locals.len() + locals.len()
            &&& s1.locals.subrange(0, s.locals.len() as int) == s.locals
            &&& scope_names(s1.locals) == scope_names(s.locals) + locals
        },
    decreases binders, n, 1nat,
{
    let names = scope_names(s.locals);
    if n == 0 || n > binders.len() {
        let locals = Seq::<NameView>::empty();
        assert(s.locals.subrange(0, s.locals.len() as int) =~= s.locals);
        assert(names + locals =~= names);
    } else {
        lemma_enter_placed(s, binders, (n - 1) as nat);
        let (before, s1) = s.enter_scope(binders, (n - 1) as nat);
        if before is Ok {
            let locals = before->Ok_0;
            match crate::elaborate::binder_repr(binders[n - 1].name) {
                None => {},
                Some(repr) => {
                    lemma_scope_extends(names, locals);
                    lemma_term_placed(s1, binders[n - 1].ty);
                    let (ty, s2) = s1.elaborate_term(binders[n - 1].ty);
                    if ty is Ok && s2.cx.cx.local_counter != usize::MAX {
                        let local = s2.cx.cx.next_local(repr, ty->Ok_0);
                        let all = locals.push(local);
                        let after = s2.locals.push((binders[n - 1].name, local));
                        lemma_bound_names(after, after.len());
                        lemma_bound_names(s1.locals, s1.locals.len());
                        lemma_bound_names(s.locals, s.locals.len());
                        assert(s2.locals == s1.locals);
                        let b1 = scope_names(s1.locals);
                        let b2 = scope_names(after);
                        assert(b1 == names + locals);
                        assert forall|i: int| 0 <= i < b2.len() implies b2[i] == (names + all)[i] by {
                            if i < s1.locals.len() {
                                assert(after[i] == s1.locals[i]);
                                assert(b1[i] == s1.locals[i].1);
                                assert(b1[i] == (names + locals)[i]);
                            } else {
                                assert(after[i].1 == local);
                            }
                        }
                        assert(b2 =~= names + all);
                        assert(after.subrange(0, s.locals.len() as int) =~= s.locals) by {
                            assert(s1.locals.subrange(0, s.locals.len() as int) == s.locals);
                        }
                        assert forall|j: int| 0 <= j < all.len() implies #[trigger] typed_at(
                            all,
                            names,
                            j,
                        ) by {
                            if j < locals.len() {
                                assert(typed_at(locals, names, j));
                                assert(all.take(j) =~= locals.take(j));
                                assert(all[j] == locals[j]);
                            } else {
                                assert(all.take(j) =~= locals);
                            }
                        }
                    }
                },
            }
        }
    }
}

/// Each of the first `n` terms, elaborated one after the other, is placed
/// among the locals in scope.
pub proof fn lemma_terms_placed(s: LocalElabCxView, terms: Seq<syntax::TermView>, n: nat)
    requires
        in_order(s),
    ensures
        same_globals(s.elaborate_terms(terms, n).1, s),
        s.elaborate_terms(terms, n).0 matches Ok(ts) ==> s.elaborate_terms(terms, n).1.locals
            == s.locals && forall|i: int|
            0 <= i < ts.len() ==> placed(#[trigger] ts[i], scope_names(s.locals)),
    decreases terms, n, 1nat,
{
    if n == 0 || n > terms.len() {
    } else {
        lemma_terms_placed(s, terms, (n - 1) as nat);
        let (before, s1) = s.elaborate_terms(terms, (n - 1) as nat);
        if before is Ok {
            lemma_term_placed(s1, terms[n - 1]);
        }
    }
}

/// Whether the datatype that a `match` takes apart is placed among `ls`.
pub open spec fn target_placed(target: MatchTarget, ls: Seq<NameView>) -> bool {
    &&& placed(target.ty, ls)
    &&& target.recursor is Qual
    &&& forall|i: int| 0 <= i < target.params.len() ==> placed(#[trigger] target.params[i], ls)
}

/// What a `match` becomes is placed among the locals in scope.
pub proof fn lemma_match_placed(s: LocalElabCxView, term: syntax::TermView)
    requires
        in_order(s),
        term is Match,
    ensures
        same_globals(s.elaborate_term(term).1, s),
        s.elaborate_term(term).0 matches Ok(t) ==> placed(t, scope_names(s.locals))
            && s.elaborate_term(term).1.locals == s.locals,
    decreases term, 0nat,
{
    let names = scope_names(s.locals);
    match term {
        syntax::TermView::Match { span, scrutinee, cases } => {
            lemma_term_placed(s, *scrutinee);
            let (first, s1) = s.elaborate_term(*scrutinee);
            if first is Ok {
                let escrut = first->Ok_0;
                lemma_scrutinee_type_placed(s1, span, escrut);
                let (found, s2) = s1.scrutinee_type(span, escrut);
                if found is Ok {
                    let target = found->Ok_0;
                    if s2.cx.check_cases(target.ctors, cases, cases.len()) is None {
                        assert(placed(TermView::Type, names));
                        assert(placed(target.ty, names));
                        assert(placed(motive_type(target.ty), names));
                        lemma_meta_in_context_placed(s2, motive_type(target.ty));
                        let (hole, s3) = s2.meta_in_context(motive_type(target.ty));
                        if hole is Ok {
                            let motive = hole->Ok_0;
                            lemma_branches_placed(s3, motive, target, cases, target.ctors.len());
                            let (built, s4) = s3.branches(
                                motive,
                                target,
                                cases,
                                target.ctors.len(),
                            );
                            if built is Ok {
                                let bs = built->Ok_0;
                                let args = target.params.push(motive) + bs + seq![escrut];
                                assert forall|i: int| 0 <= i < args.len() implies placed(
                                    #[trigger] args[i],
                                    names,
                                ) by {
                                    if i < target.params.len() {
                                        assert(args[i] == target.params[i]);
                                    } else if i == target.params.len() {
                                        assert(args[i] == motive);
                                    } else if i < target.params.len() + 1 + bs.len() {
                                        assert(args[i] == bs[i - target.params.len() - 1]);
                                    } else {
                                        assert(args[i] == escrut);
                                    }
                                }
                                lemma_apply_all_placed(target.recursor.to_term(), args, names);
                            }
                        }
                    }
                }
            }
        },
        _ => {},
    }
}

/// Each branch of a `match` is placed among the locals in scope.
pub proof fn lemma_branches_placed(
    s: LocalElabCxView,
    motive: TermView,
    target: MatchTarget,
    cases: Seq<syntax::CaseView>,
    n: nat,
)
    requires
        in_order(s),
        placed(motive, scope_names(s.locals)),
        target_placed(target, scope_names(s.locals)),
    ensures
        same_globals(s.branches(motive, target, cases, n).1, s),
        s.branches(motive, target, cases, n).0 matches Ok(bs) ==> s.branches(
            motive,
            target,
            cases,
            n,
        ).1.locals == s.locals && forall|i: int|
            0 <= i < bs.len() ==> placed(#[trigger] bs[i], scope_names(s.locals)),
    decreases cases, n, 1nat,
{
    if n == 0 || n > target.ctors.len() {
    } else {
        lemma_branches_placed(s, motive, target, cases, (n - 1) as nat);
        let (before, s1) = s.branches(motive, target, cases, (n - 1) as nat);
        if before is Ok {
            let k = s1.cx.first_case(target.ctors, cases, n - 1, 0);
            if 0 <= k < cases.len() {
                lemma_branch_placed(s1, motive, target, target.ctors[n - 1], cases[k]);
            }
        }
    }
}

/// The branch that a case becomes is placed among the locals in scope.
pub proof fn lemma_branch_placed(
    s: LocalElabCxView,
    motive: TermView,
    target: MatchTarget,
    ctor: NameView,
    case: syntax::CaseView,
)
    requires
        in_order(s),
        placed(motive, scope_names(s.locals)),
        target_placed(target, scope_names(s.locals)),
    ensures
        same_globals(s.branch(motive, target, ctor, case).1, s),
        s.branch(motive, target, ctor, case).0 matches Ok(b) ==> placed(
            b,
            scope_names(s.locals),
        ) && s.branch(motive, target, ctor, case).1.locals == s.locals,
    decreases case, 0nat,
{
    let names = scope_names(s.locals);
    match (s.cx.cx.global_type(ctor), pattern_head(s.cx.constructors, case.pattern)) {
        (Some(cty), Some((_, pats))) => {
            lemma_lookup_closed(s.cx.cx, ctor);
            lemma_placed_extends(cty, Seq::empty(), names);
            assert(Seq::<NameView>::empty() + names =~= names);
            lemma_instantiate_all_placed(cty, target.params, names);
            let opened = cty.instantiate_all(target.params);
            let tele = peel(opened, s.cx.cx.local_counter, pats.len());
            lemma_peel_placed(opened, s.cx.cx.local_counter, pats.len(), names);
            match tele.next {
                None => {},
                Some(after_fields) => {
                    if tele.fields.len() == pats.len() && !(tele.rest is Forall) {
                        let flags = recursive_flags(tele.fields, target.datatype, tele.fields.len());
                        let hyps = hypothesis_locals(
                            motive,
                            tele.fields,
                            flags,
                            after_fields,
                            tele.fields.len(),
                        );
                        lemma_hypothesis_locals_placed(
                            motive,
                            tele.fields,
                            flags,
                            after_fields,
                            tele.fields.len(),
                            names,
                        );
                        match hyps.next {
                            None => {},
                            Some(next) => {
                                let new = tele.fields + hyps.locals;
                                let added = bind_names(pats, tele.fields, pats.len())
                                    + bind_nameless(hyps.locals, hyps.locals.len());
                                let s1 = LocalElabCxView {
                                    cx: ElabCxView {
                                        cx: TyCtxtView { local_counter: next, ..s.cx.cx },
                                        ..s.cx
                                    },
                                    locals: s.locals + bind_names(pats, tele.fields, pats.len())
                                        + bind_nameless(hyps.locals, hyps.locals.len()),
                                };
                                lemma_bind_names(pats, tele.fields, pats.len());
                                lemma_bind_nameless(hyps.locals, hyps.locals.len());
                                lemma_bound_names(s.locals, s.locals.len());
                                lemma_bound_names(s1.locals, s1.locals.len());
                                assert(scope_names(s1.locals) =~= names + new);
                                lemma_scope_extends(names, new);
                                lemma_term_placed(s1, case.rhs);
                                let (rhs, s2) = s1.elaborate_term(case.rhs);
                                if rhs is Ok {
                                    lemma_abstract_placed(false, new, rhs->Ok_0, names);
                                    assert(s2.locals.subrange(0, s.locals.len() as int)
                                        =~= s.locals);
                                }
                            },
                        }
                    }
                },
            }
        },
        _ => {},
    }
}


/// Whether no local is free in the terms of the item.
pub open spec fn item_closed(item: ItemView) -> bool {
    match item {
        ItemView::Data(d) => scoped(d.ty, Set::empty()) && forall|i: int|
            0 <= i < d.ctors.len() ==> scoped((#[trigger] d.ctors[i]).1, Set::empty()),
        ItemView::Fn(f) => scoped(f.ret_ty, Set::empty()) && scoped(f.body, Set::empty()),
        ItemView::Extern(e) => scoped(e.term, Set::empty()),
    }
}

/// Whether the constructor has a global name and a type that mentions no local.
pub open spec fn ctor_placed(c: (NameView, TermView)) -> bool {
    c.0 is Qual && placed(c.1, Seq::empty())
}

/// Whether the datatype has a global name, parameters that form a
/// telescope, and a type and constructors that mention no local.
pub open spec fn data_placed(d: DataView) -> bool {
    &&& d.name is Qual
    &&& telescope(d.parameters, Seq::empty())
    &&& placed(d.ty, Seq::empty())
    &&& forall|i: int| 0 <= i < d.ctors.len() ==> #[trigger] ctor_placed(d.ctors[i])
}

/// Whether the item mentions no local, with what its declaration needs besides.
pub open spec fn item_placed(item: ItemView) -> bool {
    match item {
        ItemView::Data(d) => data_placed(d),
        ItemView::Fn(f) => placed(f.ret_ty, Seq::empty()) && placed(f.body, Seq::empty()),
        ItemView::Extern(e) => placed(e.term, Seq::empty()),
    }
}

/// An item that is placed among no locals has no local free.
pub proof fn lemma_item_closed(item: ItemView)
    requires
        item_placed(item),
    ensures
        item_closed(item),
{
    match item {
        ItemView::Data(d) => {
            lemma_placed_scoped(d.ty);
            assert forall|i: int| 0 <= i < d.ctors.len() implies scoped(
                (#[trigger] d.ctors[i]).1,
                Set::empty(),
            ) by {
                assert(ctor_placed(d.ctors[i]));
                lemma_placed_scoped(d.ctors[i].1);
            }
        },
        ItemView::Fn(f) => {
            lemma_placed_scoped(f.ret_ty);
            lemma_placed_scoped(f.body);
        },
        ItemView::Extern(e) => {
            lemma_placed_scoped(e.term);
        },
    }
}

/// Whether the state of the elaboration of a module is in order.
pub open spec fn module_in_order(cx: ElabCxView) -> bool {
    globals_qualified(cx.globals) && context_closed(cx.cx)
}

/// The constructors of a datatype, elaborated in the scope of the
/// parameters, have global names and types that mention no local.
pub proof fn lemma_ctors_placed(
    s: LocalElabCxView,
    params: Seq<NameView>,
    ctors: Seq<(syntax::NameView, syntax::TermView)>,
    n: nat,
)
    requires
        in_order(s),
        scope_names(s.locals) == params,
    ensures
        globals_qualified(s.elaborate_ctors(params, ctors, n).1.cx.globals),
        s.elaborate_ctors(params, ctors, n).1.cx.cx.declarations == s.cx.cx.declarations,
        s.elaborate_ctors(params, ctors, n).1.cx.constructors == s.cx.constructors,
        s.elaborate_ctors(params, ctors, n).0 matches Ok(cs) ==> s.elaborate_ctors(
            params,
            ctors,
            n,
        ).1.locals == s.locals && forall|i: int| 0 <= i < cs.len() ==> #[trigger] ctor_placed(cs[i]),
    decreases n,
{
    if n == 0 || n > ctors.len() {
    } else {
        lemma_ctors_placed(s, params, ctors, (n - 1) as nat);
        let (before, s1) = s.elaborate_ctors(params, ctors, (n - 1) as nat);
        if before is Ok {
            let (name, cx) = s1.cx.elaborate_global_name(ctors[n - 1].0);
            if name is Ok {
                assert(globals_qualified(cx.globals));
                lemma_term_placed(s1.with(cx), ctors[n - 1].1);
                let (t, s2) = s1.with(cx).elaborate_term(ctors[n - 1].1);
                if t is Ok {
                    assert(Seq::<NameView>::empty() + params =~= params);
                    lemma_abstract_placed(true, params, t->Ok_0, Seq::empty());
                    let cs = before->Ok_0.push((name->Ok_0, TermView::abstract_pi(params, t->Ok_0)));
                    assert forall|i: int| 0 <= i < cs.len() implies #[trigger] ctor_placed(cs[i]) by {
                        if i < before->Ok_0.len() {
                            assert(cs[i] == before->Ok_0[i]);
                            assert(ctor_placed(before->Ok_0[i]));
                        }
                    }
                }
            }
        }
    }
}

/// The state at the start of the elaboration of an item is in order.
pub proof fn lemma_local_in_order(cx: ElabCxView)
    requires
        module_in_order(cx),
    ensures
        in_order(cx.local()),
        scope_names(cx.local().locals) =~= Seq::<NameView>::empty(),
{
}

/// A datatype that is elaborated mentions no local.
pub proof fn lemma_data_placed(cx: ElabCxView, data: syntax::InductiveView)
    requires
        module_in_order(cx),
    ensures
        globals_qualified(cx.elaborate_data(data).1.globals),
        cx.elaborate_data(data).1.cx.declarations == cx.cx.declarations,
        cx.elaborate_data(data).1.constructors == cx.constructors,
        cx.elaborate_data(data).0 matches Ok(d) ==> data_placed(d),
{
    match data.name.in_scope("rec"@) {
        None => {},
        Some(ast_rec) => {
            let (n, s1) = cx.elaborate_global_name(data.name);
            if n is Ok {
                match n->Ok_0.in_scope("rec"@) {
                    None => {},
                    Some(rec_name) => {
                        let s2 = ElabCxView { globals: s1.globals.push((ast_rec, rec_name)), ..s1 };
                        assert(globals_qualified(s2.globals));
                        let l0 = s2.local();
                        lemma_local_in_order(s2);
                        lemma_enter_placed(l0, data.parameters, data.parameters.len());
                        let (entered, l1) = l0.enter_scope(
                            data.parameters,
                            data.parameters.len(),
                        );
                        if entered is Ok {
                            let params = entered->Ok_0;
                            assert(scope_names(l1.locals) =~= params);
                            assert(Seq::<NameView>::empty() + params =~= params);
                            lemma_scope_extends(Seq::empty(), params);
                            lemma_ctors_placed(l1, params, data.ctors, data.ctors.len());
                            let (cs, l2) = l1.elaborate_ctors(
                                params,
                                data.ctors,
                                data.ctors.len(),
                            );
                            if cs is Ok {
                                lemma_term_placed(l2, data.ty);
                                let (t, l3) = l2.elaborate_term(data.ty);
                                if t is Ok {
                                    lemma_abstract_placed(true, params, t->Ok_0, Seq::empty());
                                }
                            }
                        }
                    },
                }
            }
        },
    }
}

/// A definition that is elaborated mentions no local.
pub proof fn lemma_fn_placed(cx: ElabCxView, fun: syntax::DefView)
    requires
        module_in_order(cx),
    ensures
        globals_qualified(cx.elaborate_fn(fun).1.globals),
        cx.elaborate_fn(fun).1.cx.declarations == cx.cx.declarations,
        cx.elaborate_fn(fun).1.constructors == cx.constructors,
        cx.elaborate_fn(fun).0 matches Ok(f) ==> item_placed(ItemView::Fn(f)),
{
    let l0 = cx.local();
    lemma_local_in_order(cx);
    lemma_enter_placed(l0, fun.args, fun.args.len());
    let (entered, l1) = l0.enter_scope(fun.args, fun.args.len());
    if entered is Ok {
        let args = entered->Ok_0;
        assert(scope_names(l1.locals) =~= args);
        assert(Seq::<NameView>::empty() + args =~= args);
        lemma_scope_extends(Seq::empty(), args);
        let (n, cx1) = l1.cx.elaborate_global_name(fun.name);
        if n is Ok {
            assert(globals_qualified(cx1.globals));
            lemma_term_placed(l1.with(cx1), fun.ty);
            let (t, l2) = l1.with(cx1).elaborate_term(fun.ty);
            if t is Ok {
                lemma_term_placed(l2, fun.body);
                let (b, l3) = l2.elaborate_term(fun.body);
                if b is Ok {
                    lemma_abstract_placed(true, args, t->Ok_0, Seq::empty());
                    lemma_abstract_placed(false, args, b->Ok_0, Seq::empty());
                }
            }
        }
    }
}

/// A constant that is elaborated mentions no local.
pub proof fn lemma_extern_placed(cx: ElabCxView, ext: syntax::ExternView)
    requires
        module_in_order(cx),
    ensures
        globals_qualified(cx.elaborate_extern(ext).1.globals),
        cx.elaborate_extern(ext).1.cx.declarations == cx.cx.declarations,
        cx.elaborate_extern(ext).1.constructors == cx.constructors,
        cx.elaborate_extern(ext).0 matches Ok(e) ==> item_placed(ItemView::Extern(e)),
{
    let (n, s1) = cx.elaborate_global_name(ext.name);
    if n is Ok {
        assert(globals_qualified(s1.globals));
        lemma_local_in_order(s1);
        lemma_term_placed(s1.local(), ext.term);
    }
}

/// An item that is elaborated mentions no local.
pub proof fn lemma_def_placed(cx: ElabCxView, def: syntax::ItemView)
    requires
        module_in_order(cx),
    ensures
        module_in_order(cx.elaborate_def(def).1),
        cx.elaborate_def(def).1.cx.declarations == cx.cx.declarations,
        cx.elaborate_def(def).1.constructors == cx.constructors,
        cx.elaborate_def(def).0 matches Ok(Some(item)) ==> item_placed(item),
{
    match def {
        syntax::ItemView::Inductive(d) => lemma_data_placed(cx, d),
        syntax::ItemView::Def(f) => lemma_fn_placed(cx, f),
        syntax::ItemView::Extern(e) => lemma_extern_placed(cx, e),
        _ => {},
    }
}


/// Whether `l` is a local, at no place of the source, whose type is placed among `base`.
pub open spec fn typed_in(l: NameView, base: Seq<NameView>) -> bool {
    match l {
        NameView::Local { span, ty, .. } => span == crate::span::Span::none() && placed(*ty, base),
        _ => false,
    }
}

/// The locals that stand for the branches of a recursor have types that are
/// placed among the parameters of the datatype and the motive.
pub proof fn lemma_minor_locals_placed(d: DataView, motive: NameView, next: usize, n: nat)
    requires
        data_placed(d),
        motive is Local,
        bare(motive) == motive,
    ensures
        forall|i: int|
            0 <= i < minor_locals(d, motive.to_term(), next, n).locals.len() ==> typed_in(
                #[trigger] minor_locals(d, motive.to_term(), next, n).locals[i],
                d.parameters.push(motive),
            ),
    decreases n,
{
    let base = d.parameters.push(motive);
    if n == 0 || n > d.ctors.len() {
    } else {
        lemma_minor_locals_placed(d, motive, next, (n - 1) as nat);
        let before = minor_locals(d, motive.to_term(), next, (n - 1) as nat);
        let after = minor_locals(d, motive.to_term(), next, n);
        match before.next {
            None => {},
            Some(start) => {
                let params = names_to_terms(d.parameters, d.parameters.len());
                let (ctor, ty) = d.ctors[n - 1];
                assert(ctor_placed(d.ctors[n - 1]));
                lemma_scope_locals(d.parameters);
                assert forall|i: int| 0 <= i < d.parameters.len() implies (
                #[trigger] d.parameters[i]) is Local && base.contains(d.parameters[i]) by {
                    assert(base[i] == d.parameters[i]);
                }
                lemma_names_placed(d.parameters, base);
                lemma_placed_extends(ty, Seq::empty(), base);
                assert(Seq::<NameView>::empty() + base =~= base);
                lemma_instantiate_all_placed(ty, params, base);
                let opened = ty.instantiate_all(params);
                let tele = peel(opened, start, arity(opened) as nat);
                lemma_peel_placed(opened, start, arity(opened) as nat, base);
                match tele.next {
                    None => {},
                    Some(after_fields) => {
                        let flags = recursive_flags(tele.fields, d.name, tele.fields.len());
                        let hyps = hypothesis_locals(
                            motive.to_term(),
                            tele.fields,
                            flags,
                            after_fields,
                            tele.fields.len(),
                        );
                        assert(base.contains(motive)) by {
                            assert(base[d.parameters.len() as int] == motive);
                        }
                        lemma_hypothesis_locals_placed(
                            motive.to_term(),
                            tele.fields,
                            flags,
                            after_fields,
                            tele.fields.len(),
                            base,
                        );
                        match hyps.next {
                            None => {},
                            Some(number) => {
                                if number != usize::MAX {
                                    let new = tele.fields + hyps.locals;
                                    let wider = base + new;
                                    lemma_placed_extends(motive.to_term(), base, new);
                                    assert forall|i: int| 0 <= i < tele.fields.len() implies (
                                    #[trigger] tele.fields[i]) is Local && wider.contains(
                                        bare(tele.fields[i]),
                                    ) by {
                                        assert(typed_at(tele.fields, base, i));
                                        assert(bare(tele.fields[i]) == tele.fields[i]);
                                        assert(wider[base.len() + i] == tele.fields[i]);
                                    }
                                    lemma_names_placed(tele.fields, wider);
                                    let field_terms = names_to_terms(
                                        tele.fields,
                                        tele.fields.len(),
                                    );
                                    let args = params + field_terms;
                                    assert forall|i: int| 0 <= i < args.len() implies placed(
                                        #[trigger] args[i],
                                        wider,
                                    ) by {
                                        if i < params.len() {
                                            assert(args[i] == params[i]);
                                            lemma_placed_extends(params[i], base, new);
                                        } else {
                                            assert(args[i] == field_terms[i - params.len()]);
                                        }
                                    }
                                    lemma_apply_all_placed(ctor.to_term(), args, wider);
                                    lemma_abstract_placed(
                                        true,
                                        new,
                                        TermView::App {
                                            span: crate::span::Span::none(),
                                            fun: Box::new(motive.to_term()),
                                            arg: Box::new(
                                                TermView::apply_all(ctor.to_term(), args),
                                            ),
                                        },
                                        base,
                                    );
                                    let minor = NameView::Local {
                                        span: crate::span::Span::none(),
                                        number,
                                        repr: "m"@,
                                        ty: Box::new(
                                            minor_type(
                                                motive.to_term(),
                                                params,
                                                ctor,
                                                tele.fields,
                                                hyps.locals,
                                            ),
                                        ),
                                    };
                                    assert(after.locals == before.locals.push(minor));
                                    assert(typed_in(minor, base));
                                    assert forall|i: int|
                                        0 <= i < after.locals.len() implies typed_in(
                                        #[trigger] after.locals[i],
                                        base,
                                    ) by {
                                        if i < before.locals.len() {
                                            assert(after.locals[i] == before.locals[i]);
                                        }
                                    }
                                }
                            },
                        }
                    },
                }
            },
        }
    }
}

/// The type of the recursor of a datatype that mentions no local mentions no local.
pub proof fn lemma_recursor_placed(d: DataView, next: usize)
    requires
        data_placed(d),
    ensures
        recursor_of(d, next) matches Some(rec) ==> placed(rec.ty, Seq::empty()),
{
    if next < usize::MAX - 1 {
        let ps = d.parameters;
        let params = names_to_terms(ps, ps.len());
        let applied = TermView::apply_all(d.name.to_term(), params);
        let over = NameView::Local {
            span: crate::span::Span::none(),
            number: next,
            repr: "x"@,
            ty: Box::new(applied),
        };
        let motive = NameView::Local {
            span: crate::span::Span::none(),
            number: (next + 1) as usize,
            repr: "C"@,
            ty: Box::new(TermView::abstract_pi(seq![over], TermView::Type)),
        };
        let minors = minor_locals(d, motive.to_term(), (next + 2) as usize, d.ctors.len());
        lemma_scope_locals(ps);
        lemma_names_placed(ps, ps);
        lemma_apply_all_placed(d.name.to_term(), params, ps);
        // the motive ranges over the datatype applied to its parameters
        let single = seq![over];
        assert(single.take(0) =~= Seq::<NameView>::empty());
        assert(ps + single.take(0) =~= ps);
        assert(typed_at(single, ps, 0));
        assert(placed(TermView::Type, ps + single));
        lemma_abstract_placed(true, single, TermView::Type, ps);
        lemma_minor_locals_placed(d, motive, (next + 2) as usize, d.ctors.len());
        match minors.next {
            None => {},
            Some(number) => {
                if number != usize::MAX {
                    let major = NameView::Local {
                        span: crate::span::Span::none(),
                        number,
                        repr: "x"@,
                        ty: Box::new(applied),
                    };
                    let base = ps.push(motive);
                    let all = ps + seq![motive] + minors.locals + seq![major];
                    let empty = Seq::<NameView>::empty();
                    assert forall|j: int| 0 <= j < all.len() implies #[trigger] typed_at(
                        all,
                        empty,
                        j,
                    ) by {
                        if j < ps.len() {
                            assert(typed_at(ps, empty, j));
                            assert(all[j] == ps[j]);
                            assert(all.take(j) =~= ps.take(j));
                        } else if j == ps.len() {
                            assert(all[j] == motive);
                            assert(empty + all.take(j) =~= ps);
                        } else if j < ps.len() + 1 + minors.locals.len() {
                            let i = j - ps.len() - 1;
                            assert(all[j] == minors.locals[i]);
                            assert(typed_in(minors.locals[i], base));
                            assert(empty + all.take(j) =~= base + minors.locals.take(i));
                            lemma_placed_extends(
                                *minors.locals[i]->Local_ty,
                                base,
                                minors.locals.take(i),
                            );
                        } else {
                            assert(all[j] == major);
                            assert(empty + all.take(j) =~= ps + (seq![motive] + minors.locals));
                            lemma_placed_extends(applied, ps, seq![motive] + minors.locals);
                        }
                    }
                    assert(all.contains(motive)) by {
                        assert(all[ps.len() as int] == motive);
                    }
                    assert(all.contains(major)) by {
                        assert(all[all.len() - 1] == major);
                    }
                    assert(empty + all =~= all);
                    assert(placed(motive.to_term(), empty + all));
                    assert(placed(major.to_term(), empty + all));
                    lemma_abstract_placed(
                        true,
                        all,
                        TermView::App {
                            span: crate::span::Span::none(),
                            fun: Box::new(motive.to_term()),
                            arg: Box::new(major.to_term()),
                        },
                        empty,
                    );
                }
            },
        }
    }
}

/// The declarations of the constructors of a datatype carry the
/// constructors' types.
pub proof fn lemma_ctor_declarations(d: DataView, shapes: Seq<CtorShapeView>, n: nat)
    requires
        n <= d.ctors.len(),
        n <= shapes.len(),
    ensures
        ctor_declarations(d, shapes, n).len() == n,
        forall|i: int|
            0 <= i < n ==> (#[trigger] ctor_declarations(d, shapes, n)[i]).ty == d.ctors[i].1 && (
            ctor_declarations(d, shapes, n)[i]).kind is Constructor,
    decreases n,
{
    if n > 0 {
        lemma_ctor_declarations(d, shapes, (n - 1) as nat);
    }
}

/// Declaring an item that mentions no local keeps the context closed.
pub proof fn lemma_declare_closed(cx: ElabCxView, item: ItemView)
    requires
        module_in_order(cx),
        item_placed(item),
    ensures
        module_in_order(cx.declare(item).1),
{
    match item {
        ItemView::Data(d) => {
            let (r, after) = cx.cx.declare_datatype(d);
            if r is Ok {
                let rec = recursor_of(d, cx.cx.local_counter)->0;
                lemma_recursor_placed(d, cx.cx.local_counter);
                crate::inductive::lemma_minors_len(d, cx.cx.local_counter);
                lemma_ctor_declarations(d, rec.shapes, d.ctors.len());
                let ctor_decls = ctor_declarations(d, rec.shapes, d.ctors.len());
                let before = cx.cx.declarations;
                assert forall|i: int| 0 <= i < after.declarations.len() implies declaration_closed(
                    #[trigger] after.declarations[i],
                ) by {
                    if i < before.len() {
                        assert(after.declarations[i] == before[i]);
                        assert(declaration_closed(before[i]));
                    } else if i == before.len() {
                    } else if i < before.len() + 1 + ctor_decls.len() {
                        let k = i - before.len() - 1;
                        assert(after.declarations[i] == ctor_decls[k]);
                        assert(ctor_placed(d.ctors[k]));
                    } else {
                    }
                }
            }
        },
        ItemView::Fn(f) => {
            let after = cx.cx.declare_def(f);
            assert forall|i: int| 0 <= i < after.declarations.len() implies declaration_closed(
                #[trigger] after.declarations[i],
            ) by {
                if i < cx.cx.declarations.len() {
                    assert(after.declarations[i] == cx.cx.declarations[i]);
                    assert(declaration_closed(cx.cx.declarations[i]));
                }
            }
        },
        ItemView::Extern(e) => {
            let after = cx.cx.declare_extern(e);
            assert forall|i: int| 0 <= i < after.declarations.len() implies declaration_closed(
                #[trigger] after.declarations[i],
            ) by {
                if i < cx.cx.declarations.len() {
                    assert(after.declarations[i] == cx.cx.declarations[i]);
                    assert(declaration_closed(cx.cx.declarations[i]));
                }
            }
        },
    }
}

/// The first pass over the items of a module records no global and declares nothing.
pub proof fn lemma_prescan_in_order(cx: ElabCxView, items: Seq<syntax::ItemView>, n: nat)
    ensures
        cx.prescan(items, n).1.globals == cx.globals,
        cx.prescan(items, n).1.cx == cx.cx,
    decreases n,
{
    if n > 0 && n <= items.len() {
        lemma_prescan_in_order(cx, items, (n - 1) as nat);
    }
}

/// Each item that the second pass gives mentions no local.
pub proof fn lemma_items_placed(cx: ElabCxView, items: Seq<syntax::ItemView>, n: nat)
    requires
        module_in_order(cx),
    ensures
        module_in_order(cx.elaborate_items(items, n).1),
        cx.elaborate_items(items, n).0 matches Ok(done) ==> forall|i: int|
            0 <= i < done.defs.len() ==> item_placed(#[trigger] done.defs[i]),
    decreases n,
{
    if n == 0 || n > items.len() {
    } else {
        lemma_items_placed(cx, items, (n - 1) as nat);
        let (before, s1) = cx.elaborate_items(items, (n - 1) as nat);
        if before is Ok {
            lemma_def_placed(s1, items[n - 1]);
            let (r, s2) = s1.elaborate_def(items[n - 1]);
            match r {
                Ok(Some(item)) => {
                    lemma_declare_closed(s2, item);
                    let (d, s3) = s2.declare(item);
                    if d is Ok {
                        let defs = before->Ok_0.defs.push(item);
                        assert forall|i: int| 0 <= i < defs.len() implies item_placed(
                            #[trigger] defs[i],
                        ) by {
                            if i < before->Ok_0.defs.len() {
                                assert(defs[i] == before->Ok_0.defs[i]);
                            }
                        }
                    }
                },
                _ => {},
            }
        }
    }
}

/// Every local that a term of an elaborated module mentions is bound by a
/// binder of the item that the term belongs to: in no item is a local free.
///
/// This holds of every module that is elaborated from a state in order: one
/// whose recorded globals are qualified names and whose declarations
/// mention no local, as the state at the start of an elaboration is.
pub proof fn lemma_module_closed(cx: ElabCxView, module: syntax::ModuleView, path: Seq<char>)
    requires
        module_in_order(cx),
    ensures
        cx.elaborate_module(module, path).0 matches Ok(m) ==> forall|i: int|
            0 <= i < m.defs.len() ==> item_closed(#[trigger] m.defs[i]),
{
    let (n, s1) = cx.elaborate_global_name(module.name);
    if n is Ok {
        assert(globals_qualified(s1.globals));
        lemma_prescan_in_order(s1, module.items, module.items.len());
        let (scanned, s2) = s1.prescan(module.items, module.items.len());
        if scanned is Ok {
            lemma_items_placed(s2, module.items, module.items.len());
            let (out, s3) = s2.elaborate_items(module.items, module.items.len());
            if out is Ok {
                let defs = out->Ok_0.defs;
                assert forall|i: int| 0 <= i < defs.len() implies item_closed(#[trigger] defs[i]) by {
                    lemma_item_closed(defs[i]);
                }
            }
        }
    }
}

} // verus!
