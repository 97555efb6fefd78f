//! Abstraction undone: instantiating the binders of an elaborated
//! definition with its own arguments gives back what was elaborated.

use vstd::prelude::*;
use crate::elaborate::{bound_names, find_last, ElabCxView, LocalElabCxView};
use crate::inductive::names_to_terms;
use crate::scope::{in_order, module_in_order, scope_names};
use crate::syntax;
use crate::term::{NameView, TermView};
use crate::theorems::{binder_depth, closed_at, well_formed};

verus! {

/// Whether the binders of `t` nest so little that twice their depth is a
/// machine index.
pub open spec fn small(t: TermView) -> bool {
    2 * binder_depth(t) + 2 < usize::MAX
}

/// Whether `t` is well formed, if it is small.
pub open spec fn sound(t: TermView) -> bool {
    small(t) ==> well_formed(t)
}

/// Whether `l` is a local whose type is well formed, if it is small.
pub open spec fn typed_sound(l: NameView) -> bool {
    match l {
        NameView::Local { ty, .. } => sound(*ty),
        _ => false,
    }
}

/// Whether no `match` occurs in the term.
pub open spec fn match_free(t: syntax::TermView) -> bool
    decreases t, 0nat,
{
    match t {
        syntax::TermView::App { fun, arg, .. } => match_free(*fun) && match_free(*arg),
        syntax::TermView::Forall { binders, term, .. } => binders_match_free(binders, binders.len())
            && match_free(*term),
        syntax::TermView::Lambda { args, body, .. } => binders_match_free(args, args.len())
            && match_free(*body),
        syntax::TermView::Let { binders, values, body, .. } => binders_match_free(
            binders,
            binders.len(),
        ) && terms_match_free(values, values.len()) && match_free(*body),
        syntax::TermView::Match { .. } => false,
        _ => true,
    }
}

/// Whether no `match` occurs in the types of the first `n` binders.
pub open spec fn binders_match_free(bs: Seq<syntax::BinderView>, n: nat) -> bool
    decreases bs, n,
{
    if n == 0 || n > bs.len() {
        true
    } else {
        binders_match_free(bs, (n - 1) as nat) && match_free(bs[n - 1].ty)
    }
}

/// Whether no `match` occurs in the first `n` terms.
pub open spec fn terms_match_free(ts: Seq<syntax::TermView>, n: nat) -> bool
    decreases ts, n,
{
    if n == 0 || n > ts.len() {
        true
    } else {
        terms_match_free(ts, (n - 1) as nat) && match_free(ts[n - 1])
    }
}

/// Closing a local leaves the nesting of binders as it was.
pub proof fn lemma_close_depth(t: TermView, x: usize, k: usize)
    ensures
        binder_depth(t.close(x, k)) == binder_depth(t),
    decreases t,
{
    match t {
        TermView::App { fun, arg, .. } => {
            lemma_close_depth(*fun, x, k);
            lemma_close_depth(*arg, x, k);
        },
        TermView::Forall { binder, term, .. } => {
            lemma_close_depth(*binder.ty, x, k);
            lemma_close_depth(*term, x, crate::term::deeper(k));
        },
        TermView::Lambda { binder, body, .. } => {
            lemma_close_depth(*binder.ty, x, k);
            lemma_close_depth(*body, x, crate::term::deeper(k));
        },
        _ => {},
    }
}

/// An abstraction over locals nests at least as deep as its body and the
/// locals together, and as the type of each local and the locals before it.
pub proof fn lemma_abstract_depth(pi: bool, ls: Seq<NameView>, t: TermView)
    requires
        forall|i: int| 0 <= i < ls.len() ==> (#[trigger] ls[i]) is Local,
    ensures
        binder_depth(TermView::abstract_over(pi, ls, t)) >= binder_depth(t) + ls.len(),
        forall|i: int|
            0 <= i < ls.len() ==> binder_depth(TermView::abstract_over(pi, ls, t)) >= binder_depth(
                *(#[trigger] ls[i])->Local_ty,
            ) + i,
    decreases ls.len(),
{
    if ls.len() > 0 {
        let rest = ls.drop_first();
        assert forall|i: int| 0 <= i < rest.len() implies (#[trigger] rest[i]) is Local by {
            assert(rest[i] == ls[i + 1]);
        }
        lemma_abstract_depth(pi, rest, t);
        let inner = TermView::abstract_over(pi, rest, t);
        assert(ls[0] is Local);
        lemma_close_depth(inner, ls[0]->Local_number, 0);
        let whole = TermView::abstract_over(pi, ls, t);
        assert(binder_depth(whole) >= binder_depth(inner) + 1);
        assert forall|i: int| 0 <= i < ls.len() implies binder_depth(whole) >= binder_depth(
            *(#[trigger] ls[i])->Local_ty,
        ) + i by {
            if i > 0 {
                assert(rest[i - 1] == ls[i]);
                assert(binder_depth(inner) >= binder_depth(*rest[i - 1]->Local_ty) + (i - 1));
            }
        }
    }
}

/// An application is well formed if its head and its arguments are, and it
/// nests binders as deep as the deepest of them.
pub proof fn lemma_apply_all_sound(f: TermView, args: Seq<TermView>)
    requires
        sound(f),
        forall|i: int| 0 <= i < args.len() ==> sound(#[trigger] args[i]),
    ensures
        sound(TermView::apply_all(f, args)),
    decreases args.len(),
{
    if args.len() > 0 {
        let rest = args.drop_first();
        assert forall|i: int| 0 <= i < rest.len() implies sound(#[trigger] rest[i]) by {
            assert(rest[i] == args[i + 1]);
        }
        assert(sound(args[0]));
        let head = TermView::App {
            span: crate::span::Span::none(),
            fun: Box::new(f),
            arg: Box::new(args[0]),
        };
        lemma_apply_all_sound(head, rest);
    }
}

/// The variables that name locals are well formed.
pub proof fn lemma_names_sound(locals: Seq<NameView>)
    requires
        forall|i: int| 0 <= i < locals.len() ==> (#[trigger] locals[i]) is Local,
    ensures
        forall|i: int|
            0 <= i < names_to_terms(locals, locals.len()).len() ==> sound(
                #[trigger] names_to_terms(locals, locals.len())[i],
            ),
{
    crate::theorems::lemma_names_to_terms(locals);
    let terms = names_to_terms(locals, locals.len());
    assert forall|i: int| 0 <= i < terms.len() implies sound(#[trigger] terms[i]) by {
        assert(locals[i] is Local);
        assert(terms[i] == locals[i].to_term());
    }
}

/// An abstraction over locals with sound types, out of a sound term, is sound.
pub proof fn lemma_abstract_sound(pi: bool, ls: Seq<NameView>, t: TermView)
    requires
        forall|i: int| 0 <= i < ls.len() ==> #[trigger] typed_sound(ls[i]),
        sound(t),
    ensures
        sound(TermView::abstract_over(pi, ls, t)),
{
    let whole = TermView::abstract_over(pi, ls, t);
    if small(whole) {
        assert forall|i: int| 0 <= i < ls.len() implies (#[trigger] ls[i]) is Local by {
            assert(typed_sound(ls[i]));
        }
        lemma_abstract_depth(pi, ls, t);
        let limit = binder_depth(whole) + 1;
        assert forall|i: int| 0 <= i < ls.len() implies #[trigger] crate::theorems::local_within(
            ls[i],
            limit,
        ) by {
            assert(typed_sound(ls[i]));
            assert(binder_depth(whole) >= binder_depth(*ls[i]->Local_ty) + i);
        }
        crate::theorems::lemma_abstract_closed(pi, ls, t, limit);
    }
}

/// What elaboration of a term without `match` gives is well formed, if it is small.
pub proof fn lemma_term_sound(s: LocalElabCxView, term: syntax::TermView)
    requires
        in_order(s),
        match_free(term),
    ensures
        s.elaborate_term(term).0 matches Ok(t) ==> sound(t),
    decreases term, 1nat,
{
    crate::scope::lemma_term_placed(s, term);
    match term {
        syntax::TermView::Var { name } => {
            lemma_var_sound(s, name);
        },
        syntax::TermView::App { span, fun, arg } => {
            lemma_term_sound(s, *fun);
            crate::scope::lemma_term_placed(s, *fun);
            let (first, s1) = s.elaborate_term(*fun);
            if first is Ok {
                lemma_term_sound(s1, *arg);
            }
        },
        syntax::TermView::Forall { .. } => {
            lemma_binder_term_sound(s, true, term);
        },
        syntax::TermView::Lambda { .. } => {
            lemma_binder_term_sound(s, false, term);
        },
        syntax::TermView::Let { binders, values, body, .. } => {
            lemma_terms_sound(s, values, values.len());
            crate::scope::lemma_terms_placed(s, values, values.len());
            let (bound, s1) = s.elaborate_terms(values, values.len());
            if bound is Ok {
                lemma_binder_term_sound(s1, false, term);
                let (entered, s2) = s1.enter_scope(binders, binders.len());
                if entered is Ok {
                    let (inner, s3) = s2.elaborate_term(*body);
                    if inner is Ok {
                        lemma_apply_all_sound(
                            TermView::abstract_lambda(entered->Ok_0, inner->Ok_0),
                            bound->Ok_0,
                        );
                    }
                }
            }
        },
        _ => {},
    }
}

/// What a variable of the source becomes is well formed.
pub proof fn lemma_var_sound(s: LocalElabCxView, name: syntax::NameView)
    requires
        in_order(s),
    ensures
        s.elaborate_var(name).0 matches Ok(t) ==> sound(t),
{
    let names = scope_names(s.locals);
    crate::scope::lemma_scope_locals(names);
    match s.resolve(name) {
        Some(n) => {
            match find_last(s.locals, name, s.locals.len()) {
                Some(local) => {
                    crate::scope::lemma_find_last(s.locals, name, s.locals.len());
                    let i = choose|i: int|
                        0 <= i < s.locals.len() && (#[trigger] s.locals[i]).1 == find_last(
                            s.locals,
                            name,
                            s.locals.len(),
                        )->0;
                    crate::scope::lemma_bound_names(s.locals, s.locals.len());
                    assert(names[i] == local);
                    assert(names[i] is Local);
                },
                None => {
                    match find_last(s.cx.globals, name, s.cx.globals.len()) {
                        Some(q) => {
                            crate::scope::lemma_find_last(s.cx.globals, name, s.cx.globals.len());
                        },
                        None => {},
                    }
                },
            }
        },
        None => {
            if name.repr is Placeholder {
                let (m, s1) = s.placeholder_name();
                if m is Ok {
                    lemma_names_sound(names);
                    lemma_apply_all_sound(
                        m->Ok_0.set_span(name.span).to_term(),
                        names_to_terms(names, names.len()),
                    );
                }
            }
        },
    }
}

/// A term under binders: entering the scope, elaborating the term and
/// abstracting over the new locals gives a sound term.
pub proof fn lemma_binder_term_sound(s: LocalElabCxView, pi: bool, term: syntax::TermView)
    requires
        in_order(s),
        term is Forall || term is Lambda || term is Let,
        match_free(term),
    ensures
        ({
            let binders = crate::scope::binders_of(term);
            let (entered, s1) = s.enter_scope(binders, binders.len());
            let (inner, s2) = s1.elaborate_term(crate::scope::body_of(term));
            entered is Ok && inner is Ok ==> sound(
                TermView::abstract_over(pi, entered->Ok_0, inner->Ok_0),
            )
        }),
    decreases term, 0nat,
{
    let binders = crate::scope::binders_of(term);
    let body = crate::scope::body_of(term);
    lemma_enter_sound(s, binders, binders.len());
    crate::scope::lemma_enter_placed(s, binders, binders.len());
    let (entered, s1) = s.enter_scope(binders, binders.len());
    if entered is Ok {
        crate::scope::lemma_scope_extends(scope_names(s.locals), entered->Ok_0);
        lemma_term_sound(s1, body);
        let (inner, s2) = s1.elaborate_term(body);
        if inner is Ok {
            lemma_abstract_sound(pi, entered->Ok_0, inner->Ok_0);
        }
    }
}

/// The locals that entering a scope mints have sound types.
pub proof fn lemma_enter_sound(s: LocalElabCxView, binders: Seq<syntax::BinderView>, n: nat)
    requires
        in_order(s),
        binders_match_free(binders, n),
    ensures
        s.enter_scope(binders, n).0 matches Ok(locals) ==> forall|i: int|
            0 <= i < locals.len() ==> #[trigger] typed_sound(locals[i]),
    decreases binders, n, 1nat,
{
    if n == 0 || n > binders.len() {
    } else {
        lemma_enter_sound(s, binders, (n - 1) as nat);
        crate::scope::lemma_enter_placed(s, binders, (n - 1) as nat);
        let (before, s1) = s.enter_scope(binders, (n - 1) as nat);
        if before is Ok {
            let locals = before->Ok_0;
            match crate::elaborate::binder_repr(binders[n - 1].name) {
                None => {},
                Some(repr) => {
                    crate::scope::lemma_scope_extends(scope_names(s.locals), locals);
                    lemma_term_sound(s1, binders[n - 1].ty);
                    let (ty, s2) = s1.elaborate_term(binders[n - 1].ty);
                    if ty is Ok && s2.cx.cx.local_counter != usize::MAX {
                        let local = s2.cx.cx.next_local(repr, ty->Ok_0);
                        let all = locals.push(local);
                        assert forall|i: int| 0 <= i < all.len() implies #[trigger] typed_sound(
                            all[i],
                        ) by {
                            if i < locals.len() {
                                assert(all[i] == locals[i]);
                                assert(typed_sound(locals[i]));
                            }
                        }
                    }
                },
            }
        }
    }
}

/// Each of the first `n` terms without `match`, elaborated one after the other, is sound.
pub proof fn lemma_terms_sound(s: LocalElabCxView, terms: Seq<syntax::TermView>, n: nat)
    requires
        in_order(s),
        terms_match_free(terms, n),
    ensures
        s.elaborate_terms(terms, n).0 matches Ok(ts) ==> forall|i: int|
            0 <= i < ts.len() ==> sound(#[trigger] ts[i]),
    decreases terms, n, 1nat,
{
    if n == 0 || n > terms.len() {
    } else {
        lemma_terms_sound(s, terms, (n - 1) as nat);
        crate::scope::lemma_terms_placed(s, terms, (n - 1) as nat);
        let (before, s1) = s.elaborate_terms(terms, (n - 1) as nat);
        if before is Ok {
            lemma_term_sound(s1, terms[n - 1]);
        }
    }
}


/// What elaboration makes of the parts of a definition before it abstracts
/// over the arguments: the locals that stand for the arguments, the return
/// type and the body. `None` if a part fails.
pub open spec fn elaborated_parts(cx: ElabCxView, fun: syntax::DefView) -> Option<
    (Seq<NameView>, TermView, TermView),
> {
    let (entered, l1) = cx.local().enter_scope(fun.args, fun.args.len());
    match entered {
        Err(_) => None,
        Ok(args) => {
            let (n, cx1) = l1.cx.elaborate_global_name(fun.name);
            match n {
                Err(_) => None,
                Ok(_) => {
                    let (t, l2) = l1.with(cx1).elaborate_term(fun.ty);
                    match t {
                        Err(_) => None,
                        Ok(ty) => match l2.elaborate_term(fun.body).0 {
                            Err(_) => None,
                            Ok(body) => Some((args, ty, body)),
                        },
                    }
                },
            }
        },
    }
}

/// Undoing one abstraction over locals with sound types, out of a sound
/// term: instantiating the binders with the locals gives the term back up
/// to the names of bound variables, if the abstraction is small.
pub proof fn lemma_abstract_undone(pi: bool, ls: Seq<NameView>, t: TermView)
    requires
        forall|i: int| 0 <= i < ls.len() ==> #[trigger] typed_sound(ls[i]),
        sound(t),
        small(TermView::abstract_over(pi, ls, t)),
    ensures
        TermView::abstract_over(pi, ls, t).instantiate_all(names_to_terms(ls, ls.len())).same(t),
{
    let whole = TermView::abstract_over(pi, ls, t);
    assert forall|i: int| 0 <= i < ls.len() implies (#[trigger] ls[i]) is Local by {
        assert(typed_sound(ls[i]));
    }
    lemma_abstract_depth(pi, ls, t);
    let limit = binder_depth(whole) + 1;
    assert forall|i: int| 0 <= i < ls.len() implies #[trigger] crate::theorems::local_within(
        ls[i],
        limit,
    ) by {
        assert(typed_sound(ls[i]));
        assert(binder_depth(whole) >= binder_depth(*ls[i]->Local_ty) + i);
    }
    crate::theorems::lemma_abstract_instantiate(pi, ls, t, limit);
}

/// In a definition without `match` that is elaborated, the body is the
/// lambda over the arguments around the elaborated body, and the return
/// type the function type over them; and instantiating the binders of
/// either with the arguments, the first argument for the outermost binder,
/// gives the elaborated body, or return type, back up to the names of
/// bound variables. The latter is shown of bodies and types whose binders
/// nest so little that twice their depth is a machine index.
pub proof fn lemma_fn_inverse(cx: ElabCxView, fun: syntax::DefView)
    requires
        module_in_order(cx),
        binders_match_free(fun.args, fun.args.len()),
        match_free(fun.ty),
        match_free(fun.body),
    ensures
        cx.elaborate_fn(fun).0 matches Ok(f) ==> {
            let parts = elaborated_parts(cx, fun);
            let (args, ty, body) = parts->0;
            let vars = names_to_terms(f.args, f.args.len());
            &&& parts is Some
            &&& f.args == args
            &&& f.ret_ty == TermView::abstract_pi(f.args, ty)
            &&& f.body == TermView::abstract_lambda(f.args, body)
            &&& small(f.ret_ty) ==> f.ret_ty.instantiate_all(vars).same(ty)
            &&& small(f.body) ==> f.body.instantiate_all(vars).same(body)
        },
{
    let l0 = cx.local();
    crate::scope::lemma_local_in_order(cx);
    lemma_enter_sound(l0, fun.args, fun.args.len());
    crate::scope::lemma_enter_placed(l0, fun.args, fun.args.len());
    let (entered, l1) = l0.enter_scope(fun.args, fun.args.len());
    if entered is Ok {
        let args = entered->Ok_0;
        assert(scope_names(l1.locals) =~= args);
        assert(Seq::<NameView>::empty() + args =~= args);
        crate::scope::lemma_scope_extends(Seq::empty(), args);
        let (n, cx1) = l1.cx.elaborate_global_name(fun.name);
        if n is Ok {
            assert(crate::scope::globals_qualified(cx1.globals));
            lemma_term_sound(l1.with(cx1), fun.ty);
            crate::scope::lemma_term_placed(l1.with(cx1), fun.ty);
            let (t, l2) = l1.with(cx1).elaborate_term(fun.ty);
            if t is Ok {
                lemma_term_sound(l2, fun.body);
                let (b, l3) = l2.elaborate_term(fun.body);
                if b is Ok {
                    if small(TermView::abstract_pi(args, t->Ok_0)) {
                        lemma_abstract_undone(true, args, t->Ok_0);
                    }
                    if small(TermView::abstract_lambda(args, b->Ok_0)) {
                        lemma_abstract_undone(false, args, b->Ok_0);
                    }
                }
            }
        }
    }
}

} // verus!
