//! Type inference: the type of a term, and the constraints under which
//! the term has it.

use vstd::prelude::*;
use crate::constraint::{
    AssertedBy, AssertedByView, Constraint, ConstraintSeq, ConstraintView, Justification,
    JustificationView,
};
use crate::item::{Item, ItemView, Module, ModuleView};
use crate::span::Span;
use crate::term::{term_view, Literal, Name, NameView, Term, TermView};
use crate::typeck::{Error, ErrorView, TyCtxt, TyCtxtView};
use crate::views::{empty_list, joined, pushed, result_view};

verus! {

/// A type together with the constraints under which the term has it.
pub struct Typing {
    pub ty: Term,
    pub constraints: Vec<Constraint>,
}

pub ghost struct TypingView {
    pub ty: TermView,
    pub constraints: Seq<ConstraintView>,
}

impl View for Typing {
    type V = TypingView;

    open spec fn view(&self) -> TypingView {
        TypingView { ty: self.ty@, constraints: self.constraints.deep_view() }
    }
}

impl DeepView for Typing {
    type V = TypingView;

    open spec fn deep_view(&self) -> TypingView {
        self@
    }
}

/// The depth of a term, held at the largest machine number.
pub open spec fn height(t: TermView) -> usize
    decreases t,
{
    match t {
        TermView::App { fun, arg, .. } => crate::term::deeper(higher(height(*fun), height(*arg))),
        TermView::Forall { binder, term, .. } => crate::term::deeper(
            higher(height(*binder.ty), height(*term)),
        ),
        TermView::Lambda { binder, body, .. } => crate::term::deeper(
            higher(height(*binder.ty), height(*body)),
        ),
        _ => 0,
    }
}

pub open spec fn higher(a: usize, b: usize) -> usize {
    if a >= b {
        a
    } else {
        b
    }
}

/// The qualified name of one component that the core language gives to a built-in type.
pub open spec fn builtin(s: Seq<char>) -> TermView {
    TermView::Var { name: NameView::Qual { span: Span::none(), components: seq![s] } }
}

/// The type of a literal.
pub open spec fn literal_type(lit: Literal) -> TermView {
    match lit {
        Literal::Unit => builtin("Unit"@),
        Literal::Int(_) => builtin("Int"@),
    }
}

/// The requirement that the inferred type `found` be the declared type `declared`.
pub open spec fn expected(found: TermView, declared: TermView) -> ConstraintView {
    ConstraintView::Unification(
        found,
        declared,
        JustificationView::Asserted(AssertedByView::ExpectedFound(found, declared)),
    )
}

impl TyCtxtView {
    /// The type of `t` with the constraints under which `t` has it, and the
    /// context after the locals that the inference needed are minted.
    /// `fuel` bounds the depth to which the inference descends.
    pub open spec fn infer(self, fuel: nat, t: TermView) -> (Result<TypingView, ErrorView>, TyCtxtView)
        decreases fuel, 0nat,
    {
        if fuel == 0 {
            (Err(ErrorView::ReductionLimit(t)), self)
        } else {
            match t {
                TermView::Type => (
                    Ok(TypingView { ty: TermView::Type, constraints: Seq::empty() }),
                    self,
                ),
                TermView::Literal { lit, .. } => (
                    Ok(TypingView { ty: literal_type(lit), constraints: Seq::empty() }),
                    self,
                ),
                TermView::Var { name } => match name {
                    NameView::Local { ty, .. } => (
                        Ok(TypingView { ty: *ty, constraints: Seq::empty() }),
                        self,
                    ),
                    NameView::Meta { ty, .. } => (
                        Ok(TypingView { ty: *ty, constraints: Seq::empty() }),
                        self,
                    ),
                    NameView::Qual { .. } => match self.global_type(name) {
                        Some(ty) => (Ok(TypingView { ty, constraints: Seq::empty() }), self),
                        None => (Err(ErrorView::UnknownVariable(name)), self),
                    },
                    NameView::Bound { .. } => (Err(ErrorView::UnboundIndex(name)), self),
                },
                TermView::App { span, fun, arg } => {
                    let (first, c1) = self.infer((fuel - 1) as nat, *fun);
                    match first {
                        Err(e) => (Err(e), c1),
                        Ok(f) => {
                            let (second, c2) = c1.infer((fuel - 1) as nat, *arg);
                            match second {
                                Err(e) => (Err(e), c2),
                                Ok(a) => match c2.eval(f.ty) {
                                    Err(e) => (Err(e), c2),
                                    Ok(TermView::Forall { binder, term, .. }) => (
                                        Ok(
                                            TypingView {
                                                ty: term.open_with(*arg, 0),
                                                constraints: (f.constraints + a.constraints).push(
                                                    ConstraintView::Unification(
                                                        *binder.ty,
                                                        a.ty,
                                                        JustificationView::Asserted(
                                                            AssertedByView::Application(
                                                                span,
                                                                c2.eval(f.ty)->Ok_0,
                                                                a.ty,
                                                            ),
                                                        ),
                                                    ),
                                                ),
                                            },
                                        ),
                                        c2,
                                    ),
                                    Ok(other) => (
                                        Err(ErrorView::ApplicationMismatch(span, other, a.ty)),
                                        c2,
                                    ),
                                },
                            }
                        },
                    }
                },
                TermView::Forall { binder, term, .. } => {
                    let (inner, c1) = self.infer_under((fuel - 1) as nat, binder, *term);
                    match inner {
                        Err(e) => (Err(e), c1),
                        Ok(b) => (
                            Ok(
                                TypingView {
                                    ty: TermView::Type,
                                    constraints: b.constraints.push(expected(b.ty, TermView::Type)),
                                },
                            ),
                            c1,
                        ),
                    }
                },
                TermView::Lambda { binder, body, .. } => {
                    if self.local_counter == usize::MAX {
                        (Err(ErrorView::OutOfNames), self)
                    } else {
                        let local = self.next_local(binder.name.repr(), *binder.ty);
                        let (inner, c1) = self.infer_under((fuel - 1) as nat, binder, *body);
                        match inner {
                            Err(e) => (Err(e), c1),
                            Ok(b) => (
                                Ok(
                                    TypingView {
                                        ty: TermView::abstract_pi(seq![local], b.ty),
                                        constraints: b.constraints,
                                    },
                                ),
                                c1,
                            ),
                        }
                    }
                },
            }
        }
    }

    /// Inference under a binder: the type of the binder must be a type; the
    /// body is typed with a fresh local in place of the bound variable.
    pub open spec fn infer_under(self, fuel: nat, binder: crate::term::BinderView, body: TermView) -> (
        Result<TypingView, ErrorView>,
        TyCtxtView,
    )
        decreases fuel, 1nat,
    {
        if self.local_counter == usize::MAX {
            (Err(ErrorView::OutOfNames), self)
        } else {
            let local = self.next_local(binder.name.repr(), *binder.ty);
            let (first, c1) = self.minted().infer(fuel, *binder.ty);
            match first {
                Err(e) => (Err(e), c1),
                Ok(k) => {
                    let (second, c2) = c1.infer(fuel, body.open_with(local.to_term(), 0));
                    match second {
                        Err(e) => (Err(e), c2),
                        Ok(b) => (
                            Ok(
                                TypingView {
                                    ty: b.ty,
                                    constraints: k.constraints.push(expected(k.ty, TermView::Type))
                                        + b.constraints,
                                },
                            ),
                            c2,
                        ),
                    }
                },
            }
        }
    }

    /// The type of `t` with its constraints: inference to the depth of `t`.
    pub open spec fn type_infer_term(self, t: TermView) -> (Result<TypingView, ErrorView>, TyCtxtView) {
        self.infer(crate::term::deeper(height(t)) as nat, t)
    }

    /// The constraints under which `t` has the type `ty`.
    pub open spec fn type_check_term(self, t: TermView, ty: TermView) -> (
        Result<Seq<ConstraintView>, ErrorView>,
        TyCtxtView,
    ) {
        let (inferred, c1) = self.type_infer_term(t);
        match inferred {
            Err(e) => (Err(e), c1),
            Ok(typing) => (Ok(typing.constraints.push(expected(typing.ty, ty))), c1),
        }
    }

    /// The constraints under which the first `n` constructor types are types.
    pub open spec fn check_ctors(self, ctors: Seq<(NameView, TermView)>, n: nat) -> (
        Result<Seq<ConstraintView>, ErrorView>,
        TyCtxtView,
    )
        decreases n,
    {
        if n == 0 || n > ctors.len() {
            (Ok(Seq::empty()), self)
        } else {
            let (before, c1) = self.check_ctors(ctors, (n - 1) as nat);
            match before {
                Err(e) => (Err(e), c1),
                Ok(cs) => {
                    let (last, c2) = c1.type_check_term(ctors[n - 1].1, TermView::Type);
                    match last {
                        Err(e) => (Err(e), c2),
                        Ok(more) => (Ok(cs + more), c2),
                    }
                },
            }
        }
    }

    /// The constraints under which one item is well typed: the type of a
    /// datatype and of each constructor, and the type of a constant, must be
    /// types; so must the declared type of a definition, and its body must
    /// have that type.
    pub open spec fn check_item(self, item: ItemView) -> (
        Result<Seq<ConstraintView>, ErrorView>,
        TyCtxtView,
    ) {
        match item {
            ItemView::Data(d) => {
                let (first, c1) = self.type_check_term(d.ty, TermView::Type);
                match first {
                    Err(e) => (Err(e), c1),
                    Ok(cs) => {
                        let (rest, c2) = c1.check_ctors(d.ctors, d.ctors.len());
                        match rest {
                            Err(e) => (Err(e), c2),
                            Ok(more) => (Ok(cs + more), c2),
                        }
                    },
                }
            },
            ItemView::Fn(f) => {
                let (first, c1) = self.type_check_term(f.ret_ty, TermView::Type);
                match first {
                    Err(e) => (Err(e), c1),
                    Ok(cs) => {
                        let (second, c2) = c1.type_check_term(f.body, f.ret_ty);
                        match second {
                            Err(e) => (Err(e), c2),
                            Ok(more) => (Ok(cs + more), c2),
                        }
                    },
                }
            },
            ItemView::Extern(e) => self.type_check_term(e.term, TermView::Type),
        }
    }

    /// The constraints of the first `n` items, in the order of the items.
    pub open spec fn check_items(self, items: Seq<ItemView>, n: nat) -> (
        Result<Seq<ConstraintView>, ErrorView>,
        TyCtxtView,
    )
        decreases n,
    {
        if n == 0 || n > items.len() {
            (Ok(Seq::empty()), self)
        } else {
            let (before, c1) = self.check_items(items, (n - 1) as nat);
            match before {
                Err(e) => (Err(e), c1),
                Ok(cs) => {
                    let (last, c2) = c1.check_item(items[n - 1]);
                    match last {
                        Err(e) => (Err(e), c2),
                        Ok(more) => (Ok(cs + more), c2),
                    }
                },
            }
        }
    }

    /// The constraints under which the module is well typed.
    pub open spec fn type_check_module(self, m: ModuleView) -> (
        Result<Seq<ConstraintView>, ErrorView>,
        TyCtxtView,
    ) {
        self.check_items(m.defs, m.defs.len())
    }
}


/// The depth of a term, held at the largest machine number.
pub fn term_height(t: &Term) -> (r: usize)
    ensures
        r == height(t@),
    decreases t,
{
    match t {
        Term::App { fun, arg, .. } => {
            let a = term_height(fun);
            let b = term_height(arg);
            crate::term::deeper_index(if a >= b { a } else { b })
        },
        Term::Forall { binder, term, .. } => {
            let a = term_height(&binder.ty);
            let b = term_height(term);
            crate::term::deeper_index(if a >= b { a } else { b })
        },
        Term::Lambda { binder, body, .. } => {
            let a = term_height(&binder.ty);
            let b = term_height(body);
            crate::term::deeper_index(if a >= b { a } else { b })
        },
        _ => 0,
    }
}

/// The type of a literal.
pub fn type_of_literal(lit: Literal) -> (r: Term)
    ensures
        r@ == literal_type(lit),
{
    match lit {
        Literal::Unit => Term::Var { name: Name::from_str("Unit") },
        Literal::Int(_) => Term::Var { name: Name::from_str("Int") },
    }
}

/// The requirement that the inferred type `found` be the declared type `declared`.
pub fn expect(found: &Term, declared: &Term) -> (r: Constraint)
    ensures
        r@ == expected(found@, declared@),
{
    Constraint::Unification(
        found.clone(),
        declared.clone(),
        Justification::Asserted(AssertedBy::ExpectedFound(found.clone(), declared.clone())),
    )
}

fn typed(ty: Term) -> (r: Typing)
    ensures
        r@ == (TypingView { ty: ty@, constraints: Seq::empty() }),
{
    Typing { ty, constraints: empty_list() }
}

impl TyCtxt {
    fn infer(&mut self, fuel: usize, t: &Term) -> (r: Result<Typing, Error>)
        ensures
            (result_view(r), final(self)@) == old(self)@.infer(fuel as nat, t@),
        decreases fuel, 0nat,
    {
        proof {
            reveal_with_fuel(term_view, 2);
        }
        if fuel == 0 {
            return Err(Error::ReductionLimit(t.clone()));
        }
        match t {
            Term::Type => Ok(typed(Term::Type)),
            Term::Literal { lit, .. } => Ok(typed(type_of_literal(*lit))),
            Term::Var { name } => match name {
                Name::Local { ty, .. } => Ok(typed((**ty).clone())),
                Name::Meta { ty, .. } => Ok(typed((**ty).clone())),
                Name::Qual { .. } => match self.global_type(name) {
                    Some(ty) => Ok(typed(ty)),
                    None => Err(Error::UnknownVariable(name.clone())),
                },
                Name::Bound { .. } => Err(Error::UnboundIndex(name.clone())),
            },
            Term::App { span, fun, arg } => {
                let f = self.infer(fuel - 1, fun)?;
                let a = self.infer(fuel - 1, arg)?;
                let fun_ty = self.eval(&f.ty)?;
                match &fun_ty {
                    Term::Forall { binder, term, .. } => {
                        let c = Constraint::Unification(
                            (*binder.ty).clone(),
                            a.ty.clone(),
                            Justification::Asserted(
                                AssertedBy::Application(*span, fun_ty.clone(), a.ty.clone()),
                            ),
                        );
                        Ok(
                            Typing {
                                ty: term.open_with(arg, 0),
                                constraints: pushed(joined(f.constraints, a.constraints), c),
                            },
                        )
                    },
                    _ => Err(Error::ApplicationMismatch(*span, fun_ty, a.ty)),
                }
            },
            Term::Forall { binder, term, .. } => {
                let b = self.infer_under(fuel - 1, binder, term)?;
                let c = expect(&b.ty, &Term::Type);
                Ok(Typing { ty: Term::Type, constraints: pushed(b.constraints, c) })
            },
            Term::Lambda { binder, body, .. } => {
                if self.local_counter == usize::MAX {
                    return Err(Error::OutOfNames);
                }
                let local = Name::Local {
                    span: Span::dummy(),
                    number: self.local_counter,
                    repr: binder.name.repr(),
                    ty: Box::new((*binder.ty).clone()),
                };
                let b = self.infer_under(fuel - 1, binder, body)?;
                Ok(
                    Typing {
                        ty: Term::abstract_pi(pushed(empty_list(), local), b.ty),
                        constraints: b.constraints,
                    },
                )
            },
        }
    }

    fn infer_under(&mut self, fuel: usize, binder: &crate::term::Binder, body: &Term) -> (r: Result<
        Typing,
        Error,
    >)
        ensures
            (result_view(r), final(self)@) == old(self)@.infer_under(fuel as nat, binder@, body@),
        decreases fuel, 1nat,
    {
        if self.local_counter == usize::MAX {
            return Err(Error::OutOfNames);
        }
        let local = self.local(binder);
        let k = self.infer(fuel, &binder.ty)?;
        let b = self.infer(fuel, &body.open_with(&local.to_term(), 0))?;
        let c = expect(&k.ty, &Term::Type);
        Ok(Typing { ty: b.ty, constraints: joined(pushed(k.constraints, c), b.constraints) })
    }

    /// Infers the type of `t` and the constraints under which `t` has it.
    pub fn type_infer_term(&mut self, t: &Term) -> (r: Result<Typing, Error>)
        ensures
            (result_view(r), final(self)@) == old(self)@.type_infer_term(t@),
    {
        self.infer(crate::term::deeper_index(term_height(t)), t)
    }

    /// Gives the constraints under which `t` has the type `ty`.
    pub fn type_check_term(&mut self, t: &Term, ty: &Term) -> (r: Result<ConstraintSeq, Error>)
        ensures
            (result_view(r), final(self)@) == old(self)@.type_check_term(t@, ty@),
    {
        let typing = self.type_infer_term(t)?;
        let c = expect(&typing.ty, ty);
        Ok(pushed(typing.constraints, c))
    }

    fn check_ctors(&mut self, ctors: &Vec<(Name, Term)>, n: usize) -> (r: Result<
        ConstraintSeq,
        Error,
    >)
        ensures
            (result_view(r), final(self)@) == old(self)@.check_ctors(ctors.deep_view(), n as nat),
        decreases n,
    {
        if n == 0 || n > ctors.len() {
            Ok(empty_list())
        } else {
            let cs = self.check_ctors(ctors, n - 1)?;
            let more = self.type_check_term(&ctors[n - 1].1, &Term::Type)?;
            Ok(joined(cs, more))
        }
    }

    fn check_item(&mut self, item: &Item) -> (r: Result<ConstraintSeq, Error>)
        ensures
            (result_view(r), final(self)@) == old(self)@.check_item(item@),
    {
        match item {
            Item::Data(d) => {
                let cs = self.type_check_term(&d.ty, &Term::Type)?;
                let more = self.check_ctors(&d.ctors, d.ctors.len())?;
                Ok(joined(cs, more))
            },
            Item::Fn(f) => {
                let cs = self.type_check_term(&f.ret_ty, &Term::Type)?;
                let more = self.type_check_term(&f.body, &f.ret_ty)?;
                Ok(joined(cs, more))
            },
            Item::Extern(e) => self.type_check_term(&e.term, &Term::Type),
        }
    }

    fn check_items(&mut self, items: &Vec<Item>) -> (r: Result<ConstraintSeq, Error>)
        ensures
            (result_view(r), final(self)@) == old(self)@.check_items(
                items.deep_view(),
                items.len() as nat,
            ),
    {
        let mut out: Vec<Constraint> = empty_list();
        let mut n: usize = 0;
        while n < items.len()
            invariant
                n <= items.len(),
                (Ok::<Seq<ConstraintView>, ErrorView>(out.deep_view()), self@) == old(
                    self,
                )@.check_items(items.deep_view(), n as nat),
            decreases items.len() - n,
        {
            match self.check_item(&items[n]) {
                Err(e) => {
                    proof {
                        lemma_check_items_stops(
                            old(self)@,
                            items.deep_view(),
                            (n + 1) as nat,
                            items.len() as nat,
                        );
                    }
                    return Err(e);
                },
                Ok(more) => {
                    out = joined(out, more);
                },
            }
            n += 1;
        }
        Ok(out)
    }

    /// Generates the constraints under which every item of the module is
    /// well typed, in the order of the items.
    pub fn type_check_module(&mut self, module: &Module) -> (r: Result<ConstraintSeq, Error>)
        ensures
            (result_view(r), final(self)@) == old(self)@.type_check_module(module@),
    {
        self.check_items(&module.defs)
    }
}


/// Once an item has failed the check, the items behind it are not looked at.
pub proof fn lemma_check_items_stops(cx: TyCtxtView, items: Seq<ItemView>, k: nat, n: nat)
    requires
        k <= n <= items.len(),
        cx.check_items(items, k).0 is Err,
    ensures
        cx.check_items(items, n) == cx.check_items(items, k),
    decreases n,
{
    if n > k {
        lemma_check_items_stops(cx, items, k, (n - 1) as nat);
    }
}

} // verus!
