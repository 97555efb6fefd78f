//! Type erasure: core terms lowered to an untyped language.

use vstd::prelude::*;
use crate::term::{Name, NameView, TermView};
use crate::typeck::{DefinitionView, TyCtxt};
use crate::views::{empty_list, pushed};

verus! {

/// A term of the untyped language that the back end works on.
#[derive(Debug)]
pub enum Term {
    Local(usize),
    Var(Name),
    Switch(Box<Term>),
    /// A call of a term with all the arguments of its spine at once.
    Call(Box<Term>, Vec<Term>),
    Lambda(Vec<Name>, Box<Term>),
}

/// A definition without its types.
#[derive(Debug)]
pub struct Definition {
    pub name: Name,
    pub body: Term,
}

pub ghost enum LoweredView {
    Local(usize),
    Var(NameView),
    Switch(Box<LoweredView>),
    Call(Box<LoweredView>, Seq<LoweredView>),
    Lambda(Seq<NameView>, Box<LoweredView>),
}

pub ghost struct LoweredDefinitionView {
    pub name: NameView,
    pub body: LoweredView,
}

pub open spec fn lowered_view(t: Term) -> LoweredView
    decreases t, 0nat,
{
    match t {
        Term::Local(i) => LoweredView::Local(i),
        Term::Var(n) => LoweredView::Var(n@),
        Term::Switch(s) => LoweredView::Switch(Box::new(lowered_view(*s))),
        Term::Call(f, args) => LoweredView::Call(
            Box::new(lowered_view(*f)),
            lowered_views(args@, args@.len()),
        ),
        Term::Lambda(names, body) => LoweredView::Lambda(
            names.deep_view(),
            Box::new(lowered_view(*body)),
        ),
    }
}

/// The models of the first `n` terms.
pub open spec fn lowered_views(ts: Seq<Term>, n: nat) -> Seq<LoweredView>
    decreases ts, n,
{
    if n == 0 || n > ts.len() {
        Seq::empty()
    } else {
        lowered_views(ts, (n - 1) as nat).push(lowered_view(ts[n - 1]))
    }
}

impl View for Term {
    type V = LoweredView;

    open spec fn view(&self) -> LoweredView {
        lowered_view(*self)
    }
}

impl DeepView for Term {
    type V = LoweredView;

    open spec fn deep_view(&self) -> LoweredView {
        lowered_view(*self)
    }
}

impl View for Definition {
    type V = LoweredDefinitionView;

    open spec fn view(&self) -> LoweredDefinitionView {
        LoweredDefinitionView { name: self.name@, body: self.body@ }
    }
}

/// The models of a list of untyped terms, item by item.
pub proof fn lemma_lowered_views(ts: Seq<Term>, n: nat)
    requires
        n <= ts.len(),
    ensures
        lowered_views(ts, n) == Seq::new(n, |i: int| lowered_view(ts[i])),
    decreases n,
{
    if n > 0 {
        lemma_lowered_views(ts, (n - 1) as nat);
    }
    assert(lowered_views(ts, n) =~= Seq::new(n, |i: int| lowered_view(ts[i])));
}

/// The head of a spine and its arguments, all without their types.
pub open spec fn lower_spine(t: TermView) -> Option<(LoweredView, Seq<LoweredView>)>
    decreases t, 0nat,
{
    match t {
        TermView::App { fun, arg, .. } => match (lower_spine(*fun), lower(*arg)) {
            (Some((head, args)), Some(a)) => Some((head, args.push(a))),
            _ => None,
        },
        TermView::Lambda { body, .. } => match lower(*body) {
            Some(b) => Some((b, Seq::empty())),
            None => None,
        },
        TermView::Var { name } => Some((LoweredView::Var(name), Seq::empty())),
        _ => None,
    }
}

/// The term without its types: a lambda gives way to its body, a spine of
/// applications becomes one call, and a variable stays. A type has no
/// untyped form, nor has a literal.
pub open spec fn lower(t: TermView) -> Option<LoweredView>
    decreases t, 1nat,
{
    match t {
        TermView::App { .. } => match lower_spine(t) {
            Some((head, args)) => Some(LoweredView::Call(Box::new(head), args)),
            None => None,
        },
        TermView::Lambda { body, .. } => lower(*body),
        TermView::Var { name } => Some(LoweredView::Var(name)),
        _ => None,
    }
}

/// The definition without its types.
pub open spec fn lower_definition(d: DefinitionView) -> Option<LoweredDefinitionView> {
    match lower(d.body) {
        Some(body) => Some(LoweredDefinitionView { name: d.name, body }),
        None => None,
    }
}

/// The context of type erasure.
pub struct ErasureCx<'tcx> {
    pub ty_cx: &'tcx TyCtxt,
}

fn call(head: Term, args: Vec<Term>) -> (r: Term)
    ensures
        r@ == LoweredView::Call(Box::new(head@), args.deep_view()),
{
    proof {
        lemma_lowered_views(args@, args@.len());
        assert(args.deep_view() =~= Seq::new(args@.len(), |i: int| lowered_view(args@[i])));
    }
    Term::Call(Box::new(head), args)
}

impl<'tcx> ErasureCx<'tcx> {
    pub fn new(ty_cx: &'tcx TyCtxt) -> (r: ErasureCx<'tcx>)
        ensures
            r.ty_cx == ty_cx,
    {
        ErasureCx { ty_cx }
    }

    fn lower_spine(&mut self, term: &crate::term::Term) -> (r: Option<(Term, Vec<Term>)>)
        ensures
            r.deep_view() == lower_spine(term@),
            final(self).ty_cx == old(self).ty_cx,
        decreases term, 0nat,
    {
        match term {
            crate::term::Term::App { fun, arg, .. } => match self.lower_spine(fun) {
                Some((head, args)) => match self.lower_term(arg) {
                    Some(a) => Some((head, pushed(args, a))),
                    None => None,
                },
                None => None,
            },
            crate::term::Term::Lambda { body, .. } => match self.lower_term(body) {
                Some(b) => Some((b, empty_list())),
                None => None,
            },
            crate::term::Term::Var { name } => Some((Term::Var(name.clone()), empty_list())),
            _ => None,
        }
    }

    /// Erases the types of a term: a lambda gives way to its body, a spine
    /// of applications becomes one call of its head with all its arguments,
    /// and a variable stays. Gives `None` for a term that has no untyped form.
    pub fn lower_term(&mut self, term: &crate::term::Term) -> (r: Option<Term>)
        ensures
            r.deep_view() == lower(term@),
            final(self).ty_cx == old(self).ty_cx,
        decreases term, 1nat,
    {
        match term {
            crate::term::Term::App { .. } => match self.lower_spine(term) {
                Some((head, args)) => Some(call(head, args)),
                None => None,
            },
            crate::term::Term::Lambda { body, .. } => self.lower_term(body),
            crate::term::Term::Var { name } => Some(Term::Var(name.clone())),
            _ => None,
        }
    }

    /// Erases the types of a definition: its name with its body lowered.
    pub fn lower_def(&mut self, def: &crate::typeck::Definition) -> (r: Option<Definition>)
        ensures
            match r {
                Some(d) => lower_definition(def@) == Some(d@),
                None => lower_definition(def@) is None,
            },
            final(self).ty_cx == old(self).ty_cx,
    {
        match self.lower_term(&def.body) {
            Some(body) => Some(Definition { name: def.name.clone(), body }),
            None => None,
        }
    }
}

} // verus!
