//! Elaboration: from the surface language to the core language, with
//! scopes, global names, metavariables for placeholders, and `match`
//! turned into recursors.

use vstd::prelude::*;
use crate::constraint::{Constraint, ConstraintView};
use crate::inductive::{
    flags_of, hypothesis_locals, join_names, mint_hypotheses, names_to_terms, peel, peel_type,
    recursive_flags, to_terms,
};
use crate::item::{
    Data, DataView, Extern, ExternView, Function, FunctionView, Item, ItemView, Module, ModuleView,
};
use crate::span::Span;
use crate::syntax;
use crate::term::{clone_names, Name, NameView, Term, TermView};
use crate::typeck::{Kind, KindView, SourceMap, TyCtxt, TyCtxtView};
use crate::views::{empty_list, joined, pushed, result_view};

verus! {

/// What can go wrong during elaboration.
#[derive(Debug)]
pub enum Error {
    /// A qualified name or a placeholder stands where only a plain name may.
    UnexpectedQualifiedName,
    /// A name that nothing in scope declares.
    UnknownVariable(syntax::Name),
    /// Declaring, reducing or checking failed.
    TypeCk(crate::typeck::Error),
    /// An import that names no module.
    InvalidImport,
    /// The errors of the items of a module, one for each item that failed.
    Many(Vec<Error>),
    /// The scrutinee of the `match` at this place is not of a declared datatype.
    NotInductive(Span),
    /// The pattern of the case at this place is not a constructor applied to names.
    InvalidPattern(Span),
    /// The case at this place is for no constructor of the datatype, or for one that an earlier case handles.
    RedundantCase(Span),
    /// No case handles this constructor.
    MissingCase(Name),
}

pub ghost enum ErrorView {
    UnexpectedQualifiedName,
    UnknownVariable(syntax::NameView),
    TypeCk(crate::typeck::ErrorView),
    InvalidImport,
    Many(Seq<ErrorView>),
    NotInductive(Span),
    InvalidPattern(Span),
    RedundantCase(Span),
    MissingCase(NameView),
}

pub open spec fn error_view(e: Error) -> ErrorView
    decreases e, 0nat,
{
    match e {
        Error::UnexpectedQualifiedName => ErrorView::UnexpectedQualifiedName,
        Error::UnknownVariable(n) => ErrorView::UnknownVariable(n@),
        Error::TypeCk(inner) => ErrorView::TypeCk(inner@),
        Error::InvalidImport => ErrorView::InvalidImport,
        Error::Many(es) => ErrorView::Many(errors_view(es@, es@.len())),
        Error::NotInductive(span) => ErrorView::NotInductive(span),
        Error::InvalidPattern(span) => ErrorView::InvalidPattern(span),
        Error::RedundantCase(span) => ErrorView::RedundantCase(span),
        Error::MissingCase(n) => ErrorView::MissingCase(n@),
    }
}

/// The models of the first `n` errors.
pub open spec fn errors_view(es: Seq<Error>, n: nat) -> Seq<ErrorView>
    decreases es, n,
{
    if n == 0 || n > es.len() {
        Seq::empty()
    } else {
        errors_view(es, (n - 1) as nat).push(error_view(es[n - 1]))
    }
}

impl View for Error {
    type V = ErrorView;

    open spec fn view(&self) -> ErrorView {
        error_view(*self)
    }
}

impl DeepView for Error {
    type V = ErrorView;

    open spec fn deep_view(&self) -> ErrorView {
        error_view(*self)
    }
}


/// Surface names with the core names that they stand for, the newest last.
pub type Scope = Seq<(syntax::NameView, NameView)>;

/// What the newest of the first `n` entries under the name `key` stands for.
pub open spec fn find_last(entries: Scope, key: syntax::NameView, n: nat) -> Option<NameView>
    decreases n,
{
    if n == 0 || n > entries.len() {
        None
    } else if entries[n - 1].0.same(key) {
        Some(entries[n - 1].1)
    } else {
        find_last(entries, key, (n - 1) as nat)
    }
}

/// The core names of the first `n` entries, in the order in which they were bound.
pub open spec fn bound_names(entries: Scope, n: nat) -> Seq<NameView>
    decreases n,
{
    if n == 0 || n > entries.len() {
        Seq::empty()
    } else {
        bound_names(entries, (n - 1) as nat).push(entries[n - 1].1)
    }
}

/// The entries that bind the first `n` of `names` to the first `n` of `locals`.
pub open spec fn bind_names(names: Seq<syntax::NameView>, locals: Seq<NameView>, n: nat) -> Scope
    decreases n,
{
    if n == 0 || n > names.len() || n > locals.len() {
        Seq::empty()
    } else {
        bind_names(names, locals, (n - 1) as nat).push((names[n - 1], locals[n - 1]))
    }
}

/// The surface name that nothing can refer to.
pub open spec fn nameless() -> syntax::NameView {
    syntax::NameView { span: Span::none(), repr: syntax::NameKindView::Placeholder }
}

/// The entries that hold the first `n` of `locals` under no name.
pub open spec fn bind_nameless(locals: Seq<NameView>, n: nat) -> Scope
    decreases n,
{
    if n == 0 || n > locals.len() {
        Seq::empty()
    } else {
        bind_nameless(locals, (n - 1) as nat).push((nameless(), locals[n - 1]))
    }
}

/// Whether `name` is among the first `n` of the constructor names `ctors`.
pub open spec fn names_constructor(ctors: Seq<syntax::NameView>, name: syntax::NameView, n: nat) -> bool
    decreases n,
{
    if n == 0 || n > ctors.len() {
        false
    } else {
        ctors[n - 1].same(name) || names_constructor(ctors, name, (n - 1) as nat)
    }
}

/// The names that the first `n` patterns bind, if each of them is a
/// placeholder or a name that names none of the constructors `ctors`.
pub open spec fn arg_names(ctors: Seq<syntax::NameView>, pats: Seq<syntax::PatternView>, n: nat) -> Option<
    Seq<syntax::NameView>,
>
    decreases n,
{
    if n == 0 || n > pats.len() {
        Some(Seq::empty())
    } else {
        match arg_names(ctors, pats, (n - 1) as nat) {
            None => None,
            Some(before) => match pats[n - 1] {
                syntax::PatternView::Name(name) => if names_constructor(ctors, name, ctors.len()) {
                    None
                } else {
                    Some(before.push(name))
                },
                syntax::PatternView::Placeholder => Some(before.push(nameless())),
                syntax::PatternView::Constructor(_, _) => None,
            },
        }
    }
}

/// The constructor that a pattern names and the names that it binds, if the
/// pattern is a constructor applied to names; `ctors` are the constructor
/// names of the module, which a pattern cannot bind.
pub open spec fn pattern_head(ctors: Seq<syntax::NameView>, p: syntax::PatternView) -> Option<
    (syntax::NameView, Seq<syntax::NameView>),
> {
    match p {
        syntax::PatternView::Name(name) => Some((name, Seq::empty())),
        syntax::PatternView::Constructor(name, pats) => match arg_names(ctors, pats, pats.len()) {
            Some(names) => Some((name, names)),
            None => None,
        },
        syntax::PatternView::Placeholder => None,
    }
}

/// The first index at or after `i` of the name `q` among `ctors`; their number if there is none.
pub open spec fn ctor_position(ctors: Seq<NameView>, q: NameView, i: int) -> int
    decreases ctors.len() - i,
{
    if i < 0 || i >= ctors.len() {
        ctors.len() as int
    } else if ctors[i].same(q) {
        i
    } else {
        ctor_position(ctors, q, i + 1)
    }
}

/// The literal of the core language that a literal of the source stands for.
pub open spec fn literal_of(lit: syntax::Literal) -> crate::term::Literal {
    match lit {
        syntax::Literal::Unit => crate::term::Literal::Unit,
        syntax::Literal::Int(i) => crate::term::Literal::Int(i),
    }
}

/// The printed form of the local that a binder with this name introduces.
pub open spec fn binder_repr(name: syntax::NameView) -> Option<Seq<char>> {
    match name.repr {
        syntax::NameKindView::Qualified(_) => None,
        syntax::NameKindView::Unqualified(s) => Some(s),
        syntax::NameKindView::Placeholder => Some("_"@),
    }
}

/// The type of the motive of a `match` on a scrutinee of type `ty`: a type
/// for every value of `ty`.
pub open spec fn motive_type(ty: TermView) -> TermView {
    TermView::Forall {
        span: Span::none(),
        binder: crate::term::BinderView {
            name: NameView::Bound { span: Span::none(), index: 0, repr: "x"@ },
            ty: Box::new(ty),
        },
        term: Box::new(TermView::Type),
    }
}

/// The datatype that a `match` takes apart.
pub ghost struct MatchTarget {
    /// The type of the scrutinee: the datatype applied to its parameters.
    pub ty: TermView,
    pub datatype: NameView,
    pub params: Seq<TermView>,
    pub ctors: Seq<NameView>,
    pub recursor: NameView,
}

pub ghost struct ElabCxView {
    pub constructors: Seq<syntax::NameView>,
    pub globals: Scope,
    pub metavar_counter: usize,
    pub cx: TyCtxtView,
    pub constraints: Seq<ConstraintView>,
}

pub ghost struct LocalElabCxView {
    pub cx: ElabCxView,
    pub locals: Scope,
}

/// The items and the errors that the elaboration of a list of items gives.
pub ghost struct Elaborated {
    pub defs: Seq<ItemView>,
    pub errors: Seq<ErrorView>,
}

impl ElabCxView {
    /// The global name that the plain name `n` declares, recorded among the globals.
    pub open spec fn elaborate_global_name(self, n: syntax::NameView) -> (
        Result<NameView, ErrorView>,
        ElabCxView,
    ) {
        match n.repr {
            syntax::NameKindView::Unqualified(s) => {
                let qn = NameView::Qual { span: n.span, components: seq![s] };
                (Ok(qn), ElabCxView { globals: self.globals.push((n, qn)), ..self })
            },
            _ => (Err(ErrorView::UnexpectedQualifiedName), self),
        }
    }

    /// A fresh metavariable of type `ty`.
    pub open spec fn meta(self, ty: TermView) -> (Result<NameView, ErrorView>, ElabCxView) {
        if self.metavar_counter == usize::MAX {
            (Err(ErrorView::TypeCk(crate::typeck::ErrorView::OutOfNames)), self)
        } else {
            (
                Ok(NameView::Meta {
                    span: Span::none(),
                    number: self.metavar_counter,
                    ty: Box::new(ty),
                }),
                ElabCxView { metavar_counter: (self.metavar_counter + 1) as usize, ..self },
            )
        }
    }

    /// A fresh metavariable whose type is a fresh metavariable of type `Type`.
    pub open spec fn make_placeholder(self) -> (Result<NameView, ErrorView>, ElabCxView) {
        let (ty, s1) = self.meta(TermView::Type);
        match ty {
            Err(e) => (Err(e), s1),
            Ok(t) => s1.meta(t.to_term()),
        }
    }

    /// The global that the name `n` stands for: what the module recorded
    /// under it last, else the declared global of that name.
    pub open spec fn resolve_global(self, n: syntax::NameView) -> Option<NameView> {
        if n.repr is Placeholder {
            None
        } else {
            match find_last(self.globals, n, self.globals.len()) {
                Some(q) => Some(q),
                None => match n.to_qualified() {
                    Some(q) => if self.cx.in_scope(q) {
                        Some(q)
                    } else {
                        None
                    },
                    None => None,
                },
            }
        }
    }

    /// The place among `ctors` of the constructor that the case `c` is for.
    pub open spec fn case_ctor(self, ctors: Seq<NameView>, c: syntax::CaseView) -> Option<int> {
        match pattern_head(self.constructors, c.pattern) {
            Some((n, _)) => match self.resolve_global(n) {
                Some(q) => if ctor_position(ctors, q, 0) < ctors.len() {
                    Some(ctor_position(ctors, q, 0))
                } else {
                    None
                },
                None => None,
            },
            None => None,
        }
    }

    /// The first index at or after `k` of a case for the constructor at place
    /// `i`; the number of cases if there is none.
    pub open spec fn first_case(self, ctors: Seq<NameView>, cases: Seq<syntax::CaseView>, i: int, k: int) -> int
        decreases cases.len() - k,
    {
        if k < 0 || k >= cases.len() {
            cases.len() as int
        } else if self.case_ctor(ctors, cases[k]) == Some(i) {
            k
        } else {
            self.first_case(ctors, cases, i, k + 1)
        }
    }

    /// The first fault among the first `n` cases: a pattern that is no
    /// constructor applied to names, or a case for no constructor of the
    /// datatype, or for one that an earlier case handles.
    pub open spec fn check_cases(self, ctors: Seq<NameView>, cases: Seq<syntax::CaseView>, n: nat) -> Option<
        ErrorView,
    >
        decreases n,
    {
        if n == 0 || n > cases.len() {
            None
        } else {
            match self.check_cases(ctors, cases, (n - 1) as nat) {
                Some(e) => Some(e),
                None => {
                    let c = cases[n - 1];
                    if pattern_head(self.constructors, c.pattern) is None {
                        Some(ErrorView::InvalidPattern(c.span))
                    } else {
                        match self.case_ctor(ctors, c) {
                            None => Some(ErrorView::RedundantCase(c.span)),
                            Some(i) => if self.first_case(ctors, cases, i, 0) != n - 1 {
                                Some(ErrorView::RedundantCase(c.span))
                            } else {
                                None
                            },
                        }
                    }
                },
            }
        }
    }
}

impl LocalElabCxView {
    /// The same local scope over another module-level state.
    pub open spec fn with(self, cx: ElabCxView) -> LocalElabCxView {
        LocalElabCxView { cx, ..self }
    }

    /// The scope cut back to its first `len` entries.
    pub open spec fn leave_scope(self, len: nat) -> LocalElabCxView {
        if len <= self.locals.len() {
            LocalElabCxView { locals: self.locals.subrange(0, len as int), ..self }
        } else {
            self
        }
    }

    /// What the name stands for: the local bound under it last, else a global.
    pub open spec fn resolve(self, name: syntax::NameView) -> Option<NameView> {
        if name.repr is Placeholder {
            None
        } else {
            match find_last(self.locals, name, self.locals.len()) {
                Some(local) => Some(local),
                None => self.cx.resolve_global(name),
            }
        }
    }

    /// The core name that the surface name stands for, with the span of this
    /// occurrence: a local, else a global of the module, else a declared
    /// global. A placeholder becomes a fresh metavariable in context, as
    /// `placeholder_name` gives it. Any other name is unknown.
    pub open spec fn elaborate_name(self, name: syntax::NameView) -> (
        Result<NameView, ErrorView>,
        LocalElabCxView,
    ) {
        match self.resolve(name) {
            Some(n) => (Ok(n.set_span(name.span)), self),
            None => if name.repr is Placeholder {
                let (m, s1) = self.placeholder_name();
                match m {
                    Err(e) => (Err(e), s1),
                    Ok(meta) => (Ok(meta.set_span(name.span)), s1),
                }
            } else {
                (Err(ErrorView::UnknownVariable(name)), self)
            },
        }
    }

    /// A fresh metavariable whose type is `ty` closed over the locals in
    /// scope: the function type from those locals, the first outermost, to `ty`.
    pub open spec fn meta_name_in_context(self, ty: TermView) -> (
        Result<NameView, ErrorView>,
        LocalElabCxView,
    ) {
        let locals = bound_names(self.locals, self.locals.len());
        let (m, cx) = self.cx.meta(TermView::abstract_pi(locals, ty));
        (m, self.with(cx))
    }

    /// The metavariable that a placeholder becomes: a fresh metavariable in
    /// context, whose type leads from the locals in scope to a fresh
    /// metavariable of type `Type`.
    pub open spec fn placeholder_name(self) -> (Result<NameView, ErrorView>, LocalElabCxView) {
        let (ty, cx) = self.cx.meta(TermView::Type);
        match ty {
            Err(e) => (Err(e), self.with(cx)),
            Ok(t) => self.with(cx).meta_name_in_context(t.to_term()),
        }
    }

    /// A fresh metavariable of type `ty` closed over the locals in scope, and
    /// applied to them.
    pub open spec fn meta_in_context(self, ty: TermView) -> (Result<TermView, ErrorView>, LocalElabCxView) {
        let locals = bound_names(self.locals, self.locals.len());
        let (m, s1) = self.meta_name_in_context(ty);
        match m {
            Err(e) => (Err(e), s1),
            Ok(meta) => (
                Ok(TermView::apply_all(meta.to_term(), names_to_terms(locals, locals.len()))),
                s1,
            ),
        }
    }

    /// The term that a placeholder at the place `span` becomes: the
    /// metavariable that `placeholder_name` gives, at that place, applied to
    /// the locals in scope.
    pub open spec fn placeholder_term(self, span: Span) -> (
        Result<TermView, ErrorView>,
        LocalElabCxView,
    ) {
        let locals = bound_names(self.locals, self.locals.len());
        let (m, s1) = self.placeholder_name();
        match m {
            Err(e) => (Err(e), s1),
            Ok(meta) => (
                Ok(
                    TermView::apply_all(
                        meta.set_span(span).to_term(),
                        names_to_terms(locals, locals.len()),
                    ),
                ),
                s1,
            ),
        }
    }

    /// The term that a variable of the source becomes.
    pub open spec fn elaborate_var(self, name: syntax::NameView) -> (
        Result<TermView, ErrorView>,
        LocalElabCxView,
    ) {
        match self.resolve(name) {
            Some(n) => (Ok(n.set_span(name.span).to_term()), self),
            None => if name.repr is Placeholder {
                self.placeholder_term(name.span)
            } else {
                (Err(ErrorView::UnknownVariable(name)), self)
            },
        }
    }

    /// The datatype of the scrutinee `escrut` with its parameters, or the
    /// error that says that there is none.
    pub open spec fn scrutinee_type(self, span: Span, escrut: TermView) -> (
        Result<MatchTarget, ErrorView>,
        LocalElabCxView,
    ) {
        let (typing, cx) = self.cx.cx.type_infer_term(escrut);
        let s1 = self.with(ElabCxView { cx, ..self.cx });
        match typing {
            Err(e) => (Err(ErrorView::TypeCk(e)), s1),
            Ok(t) => match cx.eval(t.ty) {
                Err(e) => (Err(ErrorView::TypeCk(e)), s1),
                Ok(ty) => match ty.head() {
                    TermView::Var { name } => match cx.lookup(name) {
                        Some(d) => match d.kind {
                            KindView::Datatype { params, ctors, recursor } => if name is Qual
                                && ty.args().len() == params {
                                (
                                    Ok(
                                        MatchTarget {
                                            ty,
                                            datatype: d.name,
                                            params: ty.args(),
                                            ctors,
                                            recursor,
                                        },
                                    ),
                                    s1,
                                )
                            } else {
                                (Err(ErrorView::NotInductive(span)), s1)
                            },
                            _ => (Err(ErrorView::NotInductive(span)), s1),
                        },
                        None => (Err(ErrorView::NotInductive(span)), s1),
                    },
                    _ => (Err(ErrorView::NotInductive(span)), s1),
                },
            },
        }
    }

    /// The scope with the first `n` binders entered: the type of each is
    /// elaborated in the scope of those before it, and a fresh local of that
    /// type is bound under the binder's name. Gives the new locals in order.
    pub open spec fn enter_scope(self, binders: Seq<syntax::BinderView>, n: nat) -> (
        Result<Seq<NameView>, ErrorView>,
        LocalElabCxView,
    )
        decreases binders, n,
    {
        if n == 0 || n > binders.len() {
            (Ok(Seq::empty()), self)
        } else {
            let (before, s1) = self.enter_scope(binders, (n - 1) as nat);
            match before {
                Err(e) => (Err(e), s1),
                Ok(locals) => match binder_repr(binders[n - 1].name) {
                    None => (Err(ErrorView::UnexpectedQualifiedName), s1),
                    Some(repr) => {
                        let (ty, s2) = s1.elaborate_term(binders[n - 1].ty);
                        match ty {
                            Err(e) => (Err(e), s2),
                            Ok(ety) => if s2.cx.cx.local_counter == usize::MAX {
                                (Err(ErrorView::TypeCk(crate::typeck::ErrorView::OutOfNames)), s2)
                            } else {
                                let local = s2.cx.cx.next_local(repr, ety);
                                (
                                    Ok(locals.push(local)),
                                    LocalElabCxView {
                                        cx: ElabCxView { cx: s2.cx.cx.minted(), ..s2.cx },
                                        locals: s2.locals.push((binders[n - 1].name, local)),
                                    },
                                )
                            },
                        }
                    },
                },
            }
        }
    }

    /// The first `n` terms elaborated one after the other.
    pub open spec fn elaborate_terms(self, terms: Seq<syntax::TermView>, n: nat) -> (
        Result<Seq<TermView>, ErrorView>,
        LocalElabCxView,
    )
        decreases terms, n,
    {
        if n == 0 || n > terms.len() {
            (Ok(Seq::empty()), self)
        } else {
            let (before, s1) = self.elaborate_terms(terms, (n - 1) as nat);
            match before {
                Err(e) => (Err(e), s1),
                Ok(ts) => {
                    let (last, s2) = s1.elaborate_term(terms[n - 1]);
                    match last {
                        Err(e) => (Err(e), s2),
                        Ok(t) => (Ok(ts.push(t)), s2),
                    }
                },
            }
        }
    }

    /// The branch of a recursor for the constructor `ctor`, from the case
    /// that handles it: the right side of the case under lambdas for the
    /// fields of the constructor and for the induction hypotheses.
    pub open spec fn branch(
        self,
        motive: TermView,
        target: MatchTarget,
        ctor: NameView,
        case: syntax::CaseView,
    ) -> (Result<TermView, ErrorView>, LocalElabCxView)
        decreases case, 0nat,
    {
        match (self.cx.cx.global_type(ctor), pattern_head(self.cx.constructors, case.pattern)) {
            (Some(cty), Some((_, names))) => {
                let opened = cty.instantiate_all(target.params);
                let tele = peel(opened, self.cx.cx.local_counter, names.len());
                match tele.next {
                    None => (Err(ErrorView::TypeCk(crate::typeck::ErrorView::OutOfNames)), self),
                    Some(after_fields) => if tele.fields.len() != names.len() || tele.rest is Forall {
                        (Err(ErrorView::InvalidPattern(case.span)), self)
                    } else {
                        let flags = recursive_flags(tele.fields, target.datatype, tele.fields.len());
                        let hyps = hypothesis_locals(
                            motive,
                            tele.fields,
                            flags,
                            after_fields,
                            tele.fields.len(),
                        );
                        match hyps.next {
                            None => (
                                Err(ErrorView::TypeCk(crate::typeck::ErrorView::OutOfNames)),
                                self,
                            ),
                            Some(next) => {
                                let s1 = LocalElabCxView {
                                    cx: ElabCxView {
                                        cx: TyCtxtView { local_counter: next, ..self.cx.cx },
                                        ..self.cx
                                    },
                                    locals: self.locals + bind_names(
                                        names,
                                        tele.fields,
                                        names.len(),
                                    ) + bind_nameless(hyps.locals, hyps.locals.len()),
                                };
                                let (rhs, s2) = s1.elaborate_term(case.rhs);
                                match rhs {
                                    Err(e) => (Err(e), s2),
                                    Ok(body) => (
                                        Ok(
                                            TermView::abstract_lambda(
                                                tele.fields + hyps.locals,
                                                body,
                                            ),
                                        ),
                                        s2.leave_scope(self.locals.len()),
                                    ),
                                }
                            },
                        }
                    },
                }
            },
            (None, _) => (
                Err(ErrorView::TypeCk(crate::typeck::ErrorView::UnknownVariable(ctor))),
                self,
            ),
            (_, None) => (Err(ErrorView::InvalidPattern(case.span)), self),
        }
    }

    /// The branches for the first `n` constructors of the datatype, each from
    /// the first case that handles its constructor.
    pub open spec fn branches(
        self,
        motive: TermView,
        target: MatchTarget,
        cases: Seq<syntax::CaseView>,
        n: nat,
    ) -> (Result<Seq<TermView>, ErrorView>, LocalElabCxView)
        decreases cases, n,
    {
        if n == 0 || n > target.ctors.len() {
            (Ok(Seq::empty()), self)
        } else {
            let (before, s1) = self.branches(motive, target, cases, (n - 1) as nat);
            match before {
                Err(e) => (Err(e), s1),
                Ok(bs) => {
                    let k = s1.cx.first_case(target.ctors, cases, n - 1, 0);
                    if k < 0 || k >= cases.len() {
                        (Err(ErrorView::MissingCase(target.ctors[n - 1])), s1)
                    } else {
                        let (b, s2) = s1.branch(motive, target, target.ctors[n - 1], cases[k]);
                        match b {
                            Err(e) => (Err(e), s2),
                            Ok(t) => (Ok(bs.push(t)), s2),
                        }
                    }
                },
            }
        }
    }

    /// The core term that the surface term becomes, and the state after it.
    ///
    /// Literals, `Type` and applications carry over. A variable is resolved as
    /// a name is; a placeholder becomes a metavariable in context. A function
    /// type and a lambda enter a scope with their binders and are abstracted
    /// over the locals of that scope. A `let` becomes a lambda over its
    /// binders applied to the bound terms. A `match` becomes the recursor of
    /// the scrutinee's datatype applied to the parameters, a motive that is a
    /// metavariable in context, one branch for each constructor, and the scrutinee.
    pub open spec fn elaborate_term(self, term: syntax::TermView) -> (
        Result<TermView, ErrorView>,
        LocalElabCxView,
    )
        decreases term, 0nat,
    {
        match term {
            syntax::TermView::Literal { span, lit } => (
                Ok(TermView::Literal { span, lit: literal_of(lit) }),
                self,
            ),
            syntax::TermView::Var { name } => self.elaborate_var(name),
            syntax::TermView::Type => (Ok(TermView::Type), self),
            syntax::TermView::App { span, fun, arg } => {
                let (first, s1) = self.elaborate_term(*fun);
                match first {
                    Err(e) => (Err(e), s1),
                    Ok(f) => {
                        let (second, s2) = s1.elaborate_term(*arg);
                        match second {
                            Err(e) => (Err(e), s2),
                            Ok(a) => (
                                Ok(TermView::App { span, fun: Box::new(f), arg: Box::new(a) }),
                                s2,
                            ),
                        }
                    },
                }
            },
            syntax::TermView::Forall { binders, term, .. } => {
                let (entered, s1) = self.enter_scope(binders, binders.len());
                match entered {
                    Err(e) => (Err(e), s1),
                    Ok(locals) => {
                        let (inner, s2) = s1.elaborate_term(*term);
                        match inner {
                            Err(e) => (Err(e), s2),
                            Ok(t) => (
                                Ok(TermView::abstract_pi(locals, t)),
                                s2.leave_scope(self.locals.len()),
                            ),
                        }
                    },
                }
            },
            syntax::TermView::Lambda { args, body, .. } => {
                let (entered, s1) = self.enter_scope(args, args.len());
                match entered {
                    Err(e) => (Err(e), s1),
                    Ok(locals) => {
                        let (inner, s2) = s1.elaborate_term(*body);
                        match inner {
                            Err(e) => (Err(e), s2),
                            Ok(t) => (
                                Ok(TermView::abstract_lambda(locals, t)),
                                s2.leave_scope(self.locals.len()),
                            ),
                        }
                    },
                }
            },
            syntax::TermView::Let { binders, values, body, .. } => {
                let (bound, s1) = self.elaborate_terms(values, values.len());
                match bound {
                    Err(e) => (Err(e), s1),
                    Ok(terms) => {
                        let (entered, s2) = s1.enter_scope(binders, binders.len());
                        match entered {
                            Err(e) => (Err(e), s2),
                            Ok(locals) => {
                                let (inner, s3) = s2.elaborate_term(*body);
                                match inner {
                                    Err(e) => (Err(e), s3),
                                    Ok(t) => (
                                        Ok(
                                            TermView::apply_all(
                                                TermView::abstract_lambda(locals, t),
                                                terms,
                                            ),
                                        ),
                                        s3.leave_scope(self.locals.len()),
                                    ),
                                }
                            },
                        }
                    },
                }
            },
            syntax::TermView::Match { span, scrutinee, cases } => {
                let (first, s1) = self.elaborate_term(*scrutinee);
                match first {
                    Err(e) => (Err(e), s1),
                    Ok(escrut) => {
                        let (found, s2) = s1.scrutinee_type(span, escrut);
                        match found {
                            Err(e) => (Err(e), s2),
                            Ok(target) => match s2.cx.check_cases(
                                target.ctors,
                                cases,
                                cases.len(),
                            ) {
                                Some(e) => (Err(e), s2),
                                None => {
                                    let (hole, s3) = s2.meta_in_context(motive_type(target.ty));
                                    match hole {
                                        Err(e) => (Err(e), s3),
                                        Ok(motive) => {
                                            let (built, s4) = s3.branches(
                                                motive,
                                                target,
                                                cases,
                                                target.ctors.len(),
                                            );
                                            match built {
                                                Err(e) => (Err(e), s4),
                                                Ok(bs) => (
                                                    Ok(
                                                        TermView::apply_all(
                                                            target.recursor.to_term(),
                                                            target.params.push(motive) + bs
                                                                + seq![escrut],
                                                        ),
                                                    ),
                                                    s4,
                                                ),
                                            }
                                        },
                                    }
                                },
                            },
                        }
                    },
                }
            },
        }
    }
}


/// The surface names of the first `n` constructors.
pub open spec fn ctor_surface_names(ctors: Seq<(syntax::NameView, syntax::TermView)>, n: nat) -> Seq<
    syntax::NameView,
>
    decreases n,
{
    if n == 0 || n > ctors.len() {
        Seq::empty()
    } else {
        ctor_surface_names(ctors, (n - 1) as nat).push(ctors[n - 1].0)
    }
}

impl LocalElabCxView {
    /// The constructor `name` of type `ty` of a datatype with the parameters
    /// `params`: its global name, and its type abstracted over the parameters.
    pub open spec fn elaborate_ctor(self, params: Seq<NameView>, name: syntax::NameView, ty: syntax::TermView) -> (
        Result<(NameView, TermView), ErrorView>,
        LocalElabCxView,
    ) {
        let (n, cx) = self.cx.elaborate_global_name(name);
        match n {
            Err(e) => (Err(e), self.with(cx)),
            Ok(ename) => {
                let (t, s1) = self.with(cx).elaborate_term(ty);
                match t {
                    Err(e) => (Err(e), s1),
                    Ok(ety) => (Ok((ename, TermView::abstract_pi(params, ety))), s1),
                }
            },
        }
    }

    /// The first `n` constructors elaborated one after the other.
    pub open spec fn elaborate_ctors(
        self,
        params: Seq<NameView>,
        ctors: Seq<(syntax::NameView, syntax::TermView)>,
        n: nat,
    ) -> (Result<Seq<(NameView, TermView)>, ErrorView>, LocalElabCxView)
        decreases n,
    {
        if n == 0 || n > ctors.len() {
            (Ok(Seq::empty()), self)
        } else {
            let (before, s1) = self.elaborate_ctors(params, ctors, (n - 1) as nat);
            match before {
                Err(e) => (Err(e), s1),
                Ok(cs) => {
                    let (last, s2) = s1.elaborate_ctor(params, ctors[n - 1].0, ctors[n - 1].1);
                    match last {
                        Err(e) => (Err(e), s2),
                        Ok(c) => (Ok(cs.push(c)), s2),
                    }
                },
            }
        }
    }
}

impl ElabCxView {
    /// The local state with nothing in scope.
    pub open spec fn local(self) -> LocalElabCxView {
        LocalElabCxView { cx: self, locals: Seq::empty() }
    }

    /// The datatype that the declaration becomes. The name of its recursor
    /// is recorded before the constructors are elaborated, so that their
    /// types may mention it. The type and the constructor types are
    /// abstracted over the parameters.
    pub open spec fn elaborate_data(self, data: syntax::InductiveView) -> (
        Result<DataView, ErrorView>,
        ElabCxView,
    ) {
        match data.name.in_scope("rec"@) {
            None => (Err(ErrorView::UnexpectedQualifiedName), self),
            Some(ast_rec) => {
                let (n, s1) = self.elaborate_global_name(data.name);
                match n {
                    Err(e) => (Err(e), s1),
                    Ok(ty_name) => match ty_name.in_scope("rec"@) {
                        None => (Err(ErrorView::UnexpectedQualifiedName), s1),
                        Some(rec_name) => {
                            let s2 = ElabCxView { globals: s1.globals.push((ast_rec, rec_name)), ..s1 };
                            let (entered, l1) = s2.local().enter_scope(
                                data.parameters,
                                data.parameters.len(),
                            );
                            match entered {
                                Err(e) => (Err(e), l1.cx),
                                Ok(params) => {
                                    let (cs, l2) = l1.elaborate_ctors(
                                        params,
                                        data.ctors,
                                        data.ctors.len(),
                                    );
                                    match cs {
                                        Err(e) => (Err(e), l2.cx),
                                        Ok(ctors) => {
                                            let (t, l3) = l2.elaborate_term(data.ty);
                                            match t {
                                                Err(e) => (Err(e), l3.cx),
                                                Ok(ty) => (
                                                    Ok(
                                                        DataView {
                                                            span: data.span,
                                                            name: ty_name,
                                                            parameters: params,
                                                            ty: TermView::abstract_pi(params, ty),
                                                            ctors,
                                                        },
                                                    ),
                                                    l3.cx,
                                                ),
                                            }
                                        },
                                    }
                                },
                            }
                        },
                    },
                }
            },
        }
    }

    /// The definition that the declaration becomes: its return type is the
    /// function type over the arguments, its body the lambda over them.
    pub open spec fn elaborate_fn(self, fun: syntax::DefView) -> (Result<FunctionView, ErrorView>, ElabCxView) {
        let (entered, l1) = self.local().enter_scope(fun.args, fun.args.len());
        match entered {
            Err(e) => (Err(e), l1.cx),
            Ok(args) => {
                let (n, cx) = l1.cx.elaborate_global_name(fun.name);
                match n {
                    Err(e) => (Err(e), cx),
                    Ok(name) => {
                        let (t, l2) = l1.with(cx).elaborate_term(fun.ty);
                        match t {
                            Err(e) => (Err(e), l2.cx),
                            Ok(ty) => {
                                let (b, l3) = l2.elaborate_term(fun.body);
                                match b {
                                    Err(e) => (Err(e), l3.cx),
                                    Ok(body) => (
                                        Ok(
                                            FunctionView {
                                                name,
                                                args,
                                                ret_ty: TermView::abstract_pi(args, ty),
                                                body: TermView::abstract_lambda(args, body),
                                            },
                                        ),
                                        l3.cx,
                                    ),
                                }
                            },
                        }
                    },
                }
            },
        }
    }

    /// The constant that the declaration becomes.
    pub open spec fn elaborate_extern(self, ext: syntax::ExternView) -> (
        Result<ExternView, ErrorView>,
        ElabCxView,
    ) {
        let (n, s1) = self.elaborate_global_name(ext.name);
        match n {
            Err(e) => (Err(e), s1),
            Ok(name) => {
                let (t, l1) = s1.local().elaborate_term(ext.term);
                match t {
                    Err(e) => (Err(e), l1.cx),
                    Ok(term) => (Ok(ExternView { span: ext.span, name, term }), l1.cx),
                }
            },
        }
    }

    /// The core item that a surface item becomes; comments and imports become none.
    pub open spec fn elaborate_def(self, def: syntax::ItemView) -> (
        Result<Option<ItemView>, ErrorView>,
        ElabCxView,
    ) {
        match def {
            syntax::ItemView::Inductive(d) => {
                let (r, s1) = self.elaborate_data(d);
                match r {
                    Err(e) => (Err(e), s1),
                    Ok(data) => (Ok(Some(ItemView::Data(data))), s1),
                }
            },
            syntax::ItemView::Def(f) => {
                let (r, s1) = self.elaborate_fn(f);
                match r {
                    Err(e) => (Err(e), s1),
                    Ok(fun) => (Ok(Some(ItemView::Fn(fun))), s1),
                }
            },
            syntax::ItemView::Extern(e) => {
                let (r, s1) = self.elaborate_extern(e);
                match r {
                    Err(e) => (Err(e), s1),
                    Ok(ext) => (Ok(Some(ItemView::Extern(ext))), s1),
                }
            },
            syntax::ItemView::Comment(_) => (Ok(None), self),
            syntax::ItemView::Import(_) => (Ok(None), self),
        }
    }

    /// The module that an import names.
    pub open spec fn elaborate_import(name: syntax::NameView) -> Result<NameView, ErrorView> {
        match name.to_qualified() {
            Some(q) => Ok(q),
            None => Err(ErrorView::InvalidImport),
        }
    }

    /// The first pass over the first `n` items: the constructor names of
    /// each datatype are recorded, and each import is resolved. Gives the
    /// imported names in order.
    pub open spec fn prescan(self, items: Seq<syntax::ItemView>, n: nat) -> (
        Result<Seq<NameView>, ErrorView>,
        ElabCxView,
    )
        decreases n,
    {
        if n == 0 || n > items.len() {
            (Ok(Seq::empty()), self)
        } else {
            let (before, s1) = self.prescan(items, (n - 1) as nat);
            match before {
                Err(e) => (Err(e), s1),
                Ok(imports) => match items[n - 1] {
                    syntax::ItemView::Inductive(d) => (
                        Ok(imports),
                        ElabCxView {
                            constructors: s1.constructors + ctor_surface_names(
                                d.ctors,
                                d.ctors.len(),
                            ),
                            ..s1
                        },
                    ),
                    syntax::ItemView::Import(name) => match ElabCxView::elaborate_import(name) {
                        Err(e) => (Err(e), s1),
                        Ok(q) => (Ok(imports.push(q)), s1),
                    },
                    _ => (Ok(imports), s1),
                },
            }
        }
    }

    /// The item declared in the type context.
    pub open spec fn declare(self, item: ItemView) -> (Result<(), ErrorView>, ElabCxView) {
        match item {
            ItemView::Data(d) => {
                let (r, cx) = self.cx.declare_datatype(d);
                match r {
                    Err(e) => (Err(ErrorView::TypeCk(e)), ElabCxView { cx, ..self }),
                    Ok(_) => (Ok(()), ElabCxView { cx, ..self }),
                }
            },
            ItemView::Fn(f) => (Ok(()), ElabCxView { cx: self.cx.declare_def(f), ..self }),
            ItemView::Extern(e) => (Ok(()), ElabCxView { cx: self.cx.declare_extern(e), ..self }),
        }
    }

    /// The second pass over the first `n` items: each is elaborated and, if
    /// that succeeds, declared at once, so that the items behind it see it.
    /// The error of an item that fails is kept and the pass goes on; only a
    /// declaration that fails ends it.
    pub open spec fn elaborate_items(self, items: Seq<syntax::ItemView>, n: nat) -> (
        Result<Elaborated, ErrorView>,
        ElabCxView,
    )
        decreases n,
    {
        if n == 0 || n > items.len() {
            (Ok(Elaborated { defs: Seq::empty(), errors: Seq::empty() }), self)
        } else {
            let (before, s1) = self.elaborate_items(items, (n - 1) as nat);
            match before {
                Err(e) => (Err(e), s1),
                Ok(so_far) => {
                    let (r, s2) = s1.elaborate_def(items[n - 1]);
                    match r {
                        Err(e) => (Ok(Elaborated { errors: so_far.errors.push(e), ..so_far }), s2),
                        Ok(None) => (Ok(so_far), s2),
                        Ok(Some(item)) => {
                            let (d, s3) = s2.declare(item);
                            match d {
                                Err(e) => (Err(e), s3),
                                Ok(_) => (
                                    Ok(Elaborated { defs: so_far.defs.push(item), ..so_far }),
                                    s3,
                                ),
                            }
                        },
                    }
                },
            }
        }
    }

    /// The core module that the surface module becomes.
    ///
    /// The module's own name is made global. A first pass records the
    /// constructor names and resolves the imports; a second elaborates and
    /// declares the items. If any item failed, the errors of all failed
    /// items are the result. Else the constraints of the module are
    /// generated and kept, and the module is the result.
    pub open spec fn elaborate_module(self, module: syntax::ModuleView, path: Seq<char>) -> (
        Result<ModuleView, ErrorView>,
        ElabCxView,
    ) {
        let (n, s1) = self.elaborate_global_name(module.name);
        match n {
            Err(e) => (Err(e), s1),
            Ok(name) => {
                let (scanned, s2) = s1.prescan(module.items, module.items.len());
                match scanned {
                    Err(e) => (Err(e), s2),
                    Ok(imports) => {
                        let (out, s3) = s2.elaborate_items(module.items, module.items.len());
                        match out {
                            Err(e) => (Err(e), s3),
                            Ok(done) => if done.errors.len() != 0 {
                                (Err(ErrorView::Many(done.errors)), s3)
                            } else {
                                let m = ModuleView { file_name: path, name, defs: done.defs, imports };
                                let (cs, cx) = s3.cx.type_check_module(m);
                                match cs {
                                    Err(e) => (Err(ErrorView::TypeCk(e)), ElabCxView { cx, ..s3 }),
                                    Ok(constraints) => (
                                        Ok(m),
                                        ElabCxView { cx, constraints, ..s3 },
                                    ),
                                }
                            },
                        }
                    },
                }
            },
        }
    }
}


/// The state of the elaboration of one module.
pub struct ElabCx {
    pub module: syntax::Module,
    /// The constructor names that the module declares: they tell a
    /// constructor without fields from a variable in a pattern.
    pub constructors: Vec<syntax::Name>,
    /// The global names that the module has declared so far, the newest last.
    pub globals: Vec<(syntax::Name, Name)>,
    pub metavar_counter: usize,
    pub ty_cx: TyCtxt,
    /// The constraints that the last elaborated module has to meet.
    pub constraints: Vec<Constraint>,
}

/// The state of the elaboration of one item: the module-level state, and the
/// locals in scope in the order in which they were bound.
pub struct LocalElabCx<'ecx> {
    pub cx: &'ecx mut ElabCx,
    pub locals: Vec<(syntax::Name, Name)>,
}

impl View for ElabCx {
    type V = ElabCxView;

    open spec fn view(&self) -> ElabCxView {
        ElabCxView {
            constructors: self.constructors.deep_view(),
            globals: self.globals.deep_view(),
            metavar_counter: self.metavar_counter,
            cx: self.ty_cx@,
            constraints: self.constraints.deep_view(),
        }
    }
}

impl<'ecx> View for LocalElabCx<'ecx> {
    type V = LocalElabCxView;

    open spec fn view(&self) -> LocalElabCxView {
        LocalElabCxView { cx: self.cx@, locals: self.locals.deep_view() }
    }
}

/// A datatype that a `match` takes apart.
pub struct Target {
    pub ty: Term,
    pub datatype: Name,
    pub params: Vec<Term>,
    pub ctors: Vec<Name>,
    pub recursor: Name,
}

impl View for Target {
    type V = MatchTarget;

    open spec fn view(&self) -> MatchTarget {
        MatchTarget {
            ty: self.ty@,
            datatype: self.datatype@,
            params: self.params.deep_view(),
            ctors: self.ctors.deep_view(),
            recursor: self.recursor@,
        }
    }
}

impl DeepView for Target {
    type V = MatchTarget;

    open spec fn deep_view(&self) -> MatchTarget {
        self@
    }
}

/// The models of a list of errors, item by item.
pub proof fn lemma_errors_view(es: Seq<Error>, n: nat)
    requires
        n <= es.len(),
    ensures
        errors_view(es, n) == Seq::new(n, |i: int| error_view(es[i])),
    decreases n,
{
    if n > 0 {
        lemma_errors_view(es, (n - 1) as nat);
        assert(errors_view(es, n) =~= Seq::new(n, |i: int| error_view(es[i])));
    } else {
        assert(errors_view(es, n) =~= Seq::new(n, |i: int| error_view(es[i])));
    }
}

fn many(errors: Vec<Error>) -> (r: Error)
    ensures
        r@ == ErrorView::Many(errors.deep_view()),
{
    proof {
        lemma_errors_view(errors@, errors@.len());
        assert(errors.deep_view() =~= Seq::new(errors@.len(), |i: int| error_view(errors@[i])));
    }
    Error::Many(errors)
}

/// What the newest entry under the name `key` stands for.
pub fn find_in(entries: &Vec<(syntax::Name, Name)>, key: &syntax::Name) -> (r: Option<Name>)
    ensures
        r.deep_view() == find_last(entries.deep_view(), key@, entries.len() as nat),
{
    let mut n: usize = entries.len();
    while n > 0
        invariant
            n <= entries.len(),
            find_last(entries.deep_view(), key@, entries.len() as nat) == find_last(
                entries.deep_view(),
                key@,
                n as nat,
            ),
        decreases n,
    {
        if entries[n - 1].0.same(key) {
            return Some(entries[n - 1].1.clone());
        }
        n -= 1;
    }
    None
}

/// The core names of the entries, in the order in which they were bound.
pub fn names_in_order(entries: &Vec<(syntax::Name, Name)>) -> (r: Vec<Name>)
    ensures
        r.deep_view() == bound_names(entries.deep_view(), entries.len() as nat),
{
    let mut out: Vec<Name> = empty_list();
    let mut n: usize = 0;
    while n < entries.len()
        invariant
            n <= entries.len(),
            out.deep_view() == bound_names(entries.deep_view(), n as nat),
        decreases entries.len() - n,
    {
        out = pushed(out, entries[n].1.clone());
        n += 1;
    }
    out
}

/// The literal of the core language that a literal of the source stands for.
pub fn elaborate_literal(lit: syntax::Literal) -> (r: crate::term::Literal)
    ensures
        r == literal_of(lit),
{
    match lit {
        syntax::Literal::Unit => crate::term::Literal::Unit,
        syntax::Literal::Int(i) => crate::term::Literal::Int(i),
    }
}

fn motive_type_of(ty: &Term) -> (r: Term)
    ensures
        r@ == motive_type(ty@),
{
    proof {
        reveal_with_fuel(crate::term::term_view, 2);
    }
    Term::Forall {
        span: Span::dummy(),
        binder: crate::term::Binder {
            name: Name::Bound { span: Span::dummy(), index: 0, repr: "x".to_owned() },
            ty: Box::new(ty.clone()),
        },
        term: Box::new(Term::Type),
    }
}

fn nameless_name() -> (r: syntax::Name)
    ensures
        r@ == nameless(),
{
    syntax::Name { span: Span::dummy(), repr: syntax::NameKind::Placeholder }
}

/// Whether `name` is one of the constructor names `ctors`.
pub fn is_constructor_name(ctors: &Vec<syntax::Name>, name: &syntax::Name) -> (r: bool)
    ensures
        r == names_constructor(ctors.deep_view(), name@, ctors.len() as nat),
{
    let mut found = false;
    let mut n: usize = 0;
    while n < ctors.len()
        invariant
            n <= ctors.len(),
            found == names_constructor(ctors.deep_view(), name@, n as nat),
        decreases ctors.len() - n,
    {
        if ctors[n].same(name) {
            found = true;
        }
        n += 1;
    }
    found
}

fn arg_names_of(ctors: &Vec<syntax::Name>, pats: &Vec<syntax::Pattern>) -> (r: Option<
    Vec<syntax::Name>,
>)
    ensures
        r.deep_view() == arg_names(
            ctors.deep_view(),
            syntax::patterns_view(pats@, pats@.len()),
            pats@.len(),
        ),
{
    let mut out: Option<Vec<syntax::Name>> = Some(empty_list());
    let mut n: usize = 0;
    while n < pats.len()
        invariant
            n <= pats.len(),
            out.deep_view() == arg_names(
                ctors.deep_view(),
                syntax::patterns_view(pats@, pats@.len()),
                n as nat,
            ),
        decreases pats.len() - n,
    {
        proof {
            syntax::lemma_patterns_view(pats@, pats@.len());
        }
        out = match out {
            None => None,
            Some(before) => match &pats[n] {
                syntax::Pattern::Name(name) => {
                    if is_constructor_name(ctors, name) {
                        None
                    } else {
                        Some(pushed(before, name.clone()))
                    }
                },
                syntax::Pattern::Placeholder => Some(pushed(before, nameless_name())),
                syntax::Pattern::Constructor(_, _) => None,
            },
        };
        n += 1;
    }
    out
}

/// The constructor that a pattern names and the names that it binds, if the
/// pattern is a constructor applied to names that name no constructor.
pub fn pattern_head_of(ctors: &Vec<syntax::Name>, p: &syntax::Pattern) -> (r: Option<
    (syntax::Name, Vec<syntax::Name>),
>)
    ensures
        r.deep_view() == pattern_head(ctors.deep_view(), p@),
{
    match p {
        syntax::Pattern::Name(name) => Some((name.clone(), empty_list())),
        syntax::Pattern::Constructor(name, pats) => {
            proof {
                syntax::lemma_patterns_view(pats@, pats@.len());
            }
            match arg_names_of(ctors, pats) {
                Some(names) => Some((name.clone(), names)),
                None => None,
            }
        },
        syntax::Pattern::Placeholder => None,
    }
}

fn position_of(ctors: &Vec<Name>, q: &Name) -> (r: usize)
    ensures
        r == ctor_position(ctors.deep_view(), q@, 0),
        r <= ctors.len(),
{
    let mut i: usize = 0;
    while i < ctors.len()
        invariant
            i <= ctors.len(),
            ctor_position(ctors.deep_view(), q@, 0) == ctor_position(ctors.deep_view(), q@, i as int),
        decreases ctors.len() - i,
    {
        if ctors[i].same(q) {
            return i;
        }
        i += 1;
    }
    i
}

impl ElabCx {
    /// The state at the start of the elaboration of `module`.
    pub fn from_module(module: syntax::Module, source_map: SourceMap) -> (r: ElabCx)
        ensures
            r.module == module,
            r@ == (ElabCxView {
                constructors: Seq::empty(),
                globals: Seq::empty(),
                metavar_counter: 0,
                cx: TyCtxtView {
                    file_name: source_map.file_name@,
                    source: source_map.source@,
                    declarations: Seq::empty(),
                    local_counter: 0,
                },
                constraints: Seq::empty(),
            }),
            crate::scope::module_in_order(r@),
    {
        let mut ty_cx = TyCtxt::empty();
        ty_cx.source_map = source_map;
        ElabCx {
            module,
            constructors: empty_list(),
            globals: empty_list(),
            metavar_counter: 0,
            ty_cx,
            constraints: empty_list(),
        }
    }

    /// The source text that is being elaborated.
    pub fn get_source_map(&self) -> (r: &SourceMap)
        ensures
            r == &self.ty_cx.source_map,
    {
        &self.ty_cx.source_map
    }

    /// Makes the plain name `n` a global name and records it. A qualified
    /// name or a placeholder is refused.
    pub fn elaborate_global_name(&mut self, n: &syntax::Name) -> (r: Result<Name, Error>)
        ensures
            (result_view(r), final(self)@) == old(self)@.elaborate_global_name(n@),
            final(self).module == old(self).module,
    {
        match &n.repr {
            syntax::NameKind::Unqualified(name) => {
                let components = pushed(empty_list(), name.clone());
                assert(components.deep_view() =~= seq![name@]);
                let qn = Name::Qual { span: n.span, components };
                let ghost before = self.globals.deep_view();
                self.globals.push((n.clone(), qn.clone()));
                assert(self.globals.deep_view() =~= before.push((n@, qn@)));
                Ok(qn)
            },
            _ => Err(Error::UnexpectedQualifiedName),
        }
    }

    /// Mints a metavariable of type `ty`.
    pub fn meta(&mut self, ty: Term) -> (r: Result<Name, Error>)
        ensures
            (result_view(r), final(self)@) == old(self)@.meta(ty@),
            final(self).module == old(self).module,
    {
        if self.metavar_counter == usize::MAX {
            return Err(Error::TypeCk(crate::typeck::Error::OutOfNames));
        }
        let meta = Name::Meta {
            span: Span::dummy(),
            number: self.metavar_counter,
            ty: Box::new(ty),
        };
        self.metavar_counter += 1;
        Ok(meta)
    }

    /// Mints a metavariable whose type is a fresh metavariable of type `Type`.
    pub fn make_placeholder(&mut self) -> (r: Result<Name, Error>)
        ensures
            (result_view(r), final(self)@) == old(self)@.make_placeholder(),
            final(self).module == old(self).module,
    {
        let ty = self.meta(Term::Type)?;
        self.meta(ty.to_term())
    }

    /// The global that the name `n` stands for.
    pub fn resolve_global(&self, n: &syntax::Name) -> (r: Option<Name>)
        ensures
            r.deep_view() == self@.resolve_global(n@),
    {
        match &n.repr {
            syntax::NameKind::Placeholder => None,
            _ => match find_in(&self.globals, n) {
                Some(q) => Some(q),
                None => match n.to_qualified() {
                    Some(q) => {
                        if self.ty_cx.in_scope(&q) {
                            Some(q)
                        } else {
                            None
                        }
                    },
                    None => None,
                },
            },
        }
    }

    fn case_ctor(&self, ctors: &Vec<Name>, c: &syntax::Case) -> (r: Option<usize>)
        ensures
            match r {
                Some(i) => self@.case_ctor(ctors.deep_view(), c@) == Some(i as int),
                None => self@.case_ctor(ctors.deep_view(), c@) is None,
            },
    {
        match pattern_head_of(&self.constructors, &c.pattern) {
            Some((n, _)) => match self.resolve_global(&n) {
                Some(q) => {
                    let i = position_of(ctors, &q);
                    if i < ctors.len() {
                        Some(i)
                    } else {
                        None
                    }
                },
                None => None,
            },
            None => None,
        }
    }

    fn first_case(&self, ctors: &Vec<Name>, cases: &Vec<syntax::Case>, i: usize) -> (r: usize)
        ensures
            r == self@.first_case(
                ctors.deep_view(),
                syntax::cases_view(cases@, cases@.len()),
                i as int,
                0,
            ),
            r <= cases.len(),
    {
        let mut k: usize = 0;
        while k < cases.len()
            invariant
                k <= cases.len(),
                self@.first_case(
                    ctors.deep_view(),
                    syntax::cases_view(cases@, cases@.len()),
                    i as int,
                    0,
                ) == self@.first_case(
                    ctors.deep_view(),
                    syntax::cases_view(cases@, cases@.len()),
                    i as int,
                    k as int,
                ),
            decreases cases.len() - k,
        {
            proof {
                syntax::lemma_cases_view(cases@, cases@.len());
            }
            match self.case_ctor(ctors, &cases[k]) {
                Some(found) => {
                    if found == i {
                        return k;
                    }
                },
                None => {},
            }
            k += 1;
        }
        proof {
            syntax::lemma_cases_view(cases@, cases@.len());
        }
        k
    }

    fn check_cases(&self, ctors: &Vec<Name>, cases: &Vec<syntax::Case>) -> (r: Option<Error>)
        ensures
            r.deep_view() == self@.check_cases(
                ctors.deep_view(),
                syntax::cases_view(cases@, cases@.len()),
                cases@.len(),
            ),
    {
        let mut found: Option<Error> = None;
        let mut n: usize = 0;
        while n < cases.len()
            invariant
                n <= cases.len(),
                found.deep_view() == self@.check_cases(
                    ctors.deep_view(),
                    syntax::cases_view(cases@, cases@.len()),
                    n as nat,
                ),
            decreases cases.len() - n,
        {
            proof {
                syntax::lemma_cases_view(cases@, cases@.len());
            }
            if found.is_none() {
                let c = &cases[n];
                if pattern_head_of(&self.constructors, &c.pattern).is_none() {
                    found = Some(Error::InvalidPattern(c.span));
                } else {
                    match self.case_ctor(ctors, c) {
                        None => {
                            found = Some(Error::RedundantCase(c.span));
                        },
                        Some(i) => {
                            if self.first_case(ctors, cases, i) != n {
                                found = Some(Error::RedundantCase(c.span));
                            }
                        },
                    }
                }
            }
            n += 1;
        }
        found
    }
}


impl<'ecx> LocalElabCx<'ecx> {
    /// The local state over `ecx` with nothing in scope.
    pub fn from_elab_cx(ecx: &'ecx mut ElabCx) -> (r: LocalElabCx<'ecx>)
        ensures
            r@ == old(ecx)@.local(),
            r.cx.module == old(ecx).module,
            *final(ecx) == *final(r.cx),
    {
        LocalElabCx { cx: ecx, locals: empty_list() }
    }

    /// The locals in scope, in the order in which they were bound.
    pub fn locals_in_order(&self) -> (r: Vec<Name>)
        ensures
            r.deep_view() == bound_names(self@.locals, self@.locals.len()),
    {
        names_in_order(&self.locals)
    }

    /// Cuts the scope back to its first `len` entries.
    pub fn leave_scope(&mut self, len: usize)
        ensures
            final(self)@ == old(self)@.leave_scope(len as nat),
            *final(final(self).cx) == *final(old(self).cx),
            final(self).cx.module == old(self).cx.module,
    {
        let ghost before = self.locals.deep_view();
        if len <= self.locals.len() {
            self.locals.truncate(len);
            assert(self.locals.deep_view() =~= before.subrange(0, len as int));
        }
    }

    fn resolve(&self, name: &syntax::Name) -> (r: Option<Name>)
        ensures
            r.deep_view() == self@.resolve(name@),
    {
        match &name.repr {
            syntax::NameKind::Placeholder => None,
            _ => match find_in(&self.locals, name) {
                Some(local) => Some(local),
                None => self.cx.resolve_global(name),
            },
        }
    }

    /// Resolves a name of the source: to the local bound under it last, else
    /// to a global of the module, else to a declared global. A placeholder
    /// becomes a fresh metavariable in context: its type leads from the
    /// locals in scope, the first outermost, to a fresh metavariable of type
    /// `Type`. Any other name is unknown. The result carries the span of
    /// this occurrence.
    pub fn elaborate_name(&mut self, name: &syntax::Name) -> (r: Result<Name, Error>)
        ensures
            (result_view(r), final(self)@) == old(self)@.elaborate_name(name@),
            r matches Ok(n) ==> n@.span() == name.span,
            *final(final(self).cx) == *final(old(self).cx),
            final(self).cx.module == old(self).cx.module,
    {
        match self.resolve(name) {
            Some(n) => {
                let mut core_name = n;
                core_name.set_span(name.span);
                Ok(core_name)
            },
            None => match &name.repr {
                syntax::NameKind::Placeholder => {
                    let mut meta = self.placeholder_name()?;
                    meta.set_span(name.span);
                    Ok(meta)
                },
                _ => Err(Error::UnknownVariable(name.clone())),
            },
        }
    }

    /// Mints a metavariable whose type is `ty` closed over the locals in scope.
    pub fn meta_name_in_context(&mut self, ty: Term) -> (r: Result<Name, Error>)
        ensures
            (result_view(r), final(self)@) == old(self)@.meta_name_in_context(ty@),
            *final(final(self).cx) == *final(old(self).cx),
            final(self).cx.module == old(self).cx.module,
    {
        let locals = self.locals_in_order();
        self.cx.meta(Term::abstract_pi(locals, ty))
    }

    /// Mints the metavariable that a placeholder becomes: one in context,
    /// whose type leads from the locals in scope to a fresh metavariable of
    /// type `Type`.
    pub fn placeholder_name(&mut self) -> (r: Result<Name, Error>)
        ensures
            (result_view(r), final(self)@) == old(self)@.placeholder_name(),
            *final(final(self).cx) == *final(old(self).cx),
            final(self).cx.module == old(self).cx.module,
    {
        let ty = self.cx.meta(Term::Type)?;
        self.meta_name_in_context(ty.to_term())
    }

    /// Mints a metavariable of type `ty` closed over the locals in scope, and
    /// applies it to them.
    pub fn meta_in_context(&mut self, ty: Term) -> (r: Result<Term, Error>)
        ensures
            (result_view(r), final(self)@) == old(self)@.meta_in_context(ty@),
            *final(final(self).cx) == *final(old(self).cx),
            final(self).cx.module == old(self).cx.module,
    {
        let args = to_terms(&self.locals_in_order());
        let meta = self.meta_name_in_context(ty)?;
        Ok(Term::apply_all(meta.to_term(), args))
    }

    fn placeholder_term(&mut self, span: Span) -> (r: Result<Term, Error>)
        ensures
            (result_view(r), final(self)@) == old(self)@.placeholder_term(span),
            *final(final(self).cx) == *final(old(self).cx),
            final(self).cx.module == old(self).cx.module,
    {
        let args = to_terms(&self.locals_in_order());
        let mut meta = self.placeholder_name()?;
        meta.set_span(span);
        Ok(Term::apply_all(meta.to_term(), args))
    }

    fn elaborate_var(&mut self, name: &syntax::Name) -> (r: Result<Term, Error>)
        ensures
            (result_view(r), final(self)@) == old(self)@.elaborate_var(name@),
            *final(final(self).cx) == *final(old(self).cx),
            final(self).cx.module == old(self).cx.module,
    {
        match self.resolve(name) {
            Some(n) => {
                let mut core_name = n;
                core_name.set_span(name.span);
                Ok(Term::Var { name: core_name })
            },
            None => match &name.repr {
                syntax::NameKind::Placeholder => self.placeholder_term(name.span),
                _ => Err(Error::UnknownVariable(name.clone())),
            },
        }
    }

    fn scrutinee_type(&mut self, span: Span, escrut: &Term) -> (r: Result<Target, Error>)
        ensures
            (result_view(r), final(self)@) == old(self)@.scrutinee_type(span, escrut@),
            *final(final(self).cx) == *final(old(self).cx),
            final(self).cx.module == old(self).cx.module,
    {
        let typing = match self.cx.ty_cx.type_infer_term(escrut) {
            Ok(t) => t,
            Err(e) => {
                return Err(Error::TypeCk(e));
            },
        };
        let ty = match self.cx.ty_cx.eval(&typing.ty) {
            Ok(t) => t,
            Err(e) => {
                return Err(Error::TypeCk(e));
            },
        };
        let head = ty.head();
        match &head {
            Term::Var { name } => match self.cx.ty_cx.find(name) {
                Some(i) => {
                    let d = &self.cx.ty_cx.declarations[i];
                    match &d.kind {
                        Kind::Datatype { params, ctors, recursor } => {
                            let args = ty.args();
                            if name.is_qual() && args.len() == *params {
                                Ok(
                                    Target {
                                        datatype: d.name.clone(),
                                        ty: ty.clone(),
                                        params: args,
                                        ctors: clone_names(ctors),
                                        recursor: recursor.clone(),
                                    },
                                )
                            } else {
                                Err(Error::NotInductive(span))
                            }
                        },
                        _ => Err(Error::NotInductive(span)),
                    }
                },
                None => Err(Error::NotInductive(span)),
            },
            _ => Err(Error::NotInductive(span)),
        }
    }

    fn enter_first(&mut self, binders: &Vec<syntax::Binder>, n: usize) -> (r: Result<
        Vec<Name>,
        Error,
    >)
        ensures
            (result_view(r), final(self)@) == old(self)@.enter_scope(
                syntax::binders_view(binders@, binders@.len()),
                n as nat,
            ),
            *final(final(self).cx) == *final(old(self).cx),
            final(self).cx.module == old(self).cx.module,
        decreases binders, n,
    {
        proof {
            syntax::lemma_binders_view(binders@, binders@.len());
        }
        if n == 0 || n > binders.len() {
            return Ok(empty_list());
        }
        let locals = self.enter_first(binders, n - 1)?;
        let binder = &binders[n - 1];
        let repr = match &binder.name.repr {
            syntax::NameKind::Qualified(_) => {
                return Err(Error::UnexpectedQualifiedName);
            },
            syntax::NameKind::Unqualified(s) => s.clone(),
            syntax::NameKind::Placeholder => "_".to_owned(),
        };
        let eterm = self.elaborate_term(&binder.ty)?;
        if self.cx.ty_cx.local_counter == usize::MAX {
            return Err(Error::TypeCk(crate::typeck::Error::OutOfNames));
        }
        let local = self.cx.ty_cx.local_with_repr(repr, eterm);
        let ghost before = self.locals.deep_view();
        self.locals.push((binder.name.clone(), local.clone()));
        assert(self.locals.deep_view() =~= before.push((binder.name@, local@)));
        Ok(pushed(locals, local))
    }

    /// Enters a scope with the binders: the type of each is elaborated in the
    /// scope of those before it, and a fresh local of that type is bound
    /// under the binder's name. Gives the new locals in order.
    pub fn enter_scope(&mut self, binders: &Vec<syntax::Binder>) -> (r: Result<Vec<Name>, Error>)
        ensures
            (result_view(r), final(self)@) == old(self)@.enter_scope(
                syntax::binders_view(binders@, binders@.len()),
                binders@.len(),
            ),
            *final(final(self).cx) == *final(old(self).cx),
            final(self).cx.module == old(self).cx.module,
    {
        proof {
            syntax::lemma_binders_view(binders@, binders@.len());
        }
        self.enter_first(binders, binders.len())
    }

    fn elaborate_terms(&mut self, terms: &Vec<syntax::Term>, n: usize) -> (r: Result<
        Vec<Term>,
        Error,
    >)
        ensures
            (result_view(r), final(self)@) == old(self)@.elaborate_terms(
                syntax::terms_view(terms@, terms@.len()),
                n as nat,
            ),
            *final(final(self).cx) == *final(old(self).cx),
            final(self).cx.module == old(self).cx.module,
        decreases terms, n,
    {
        proof {
            syntax::lemma_terms_view(terms@, terms@.len());
        }
        if n == 0 || n > terms.len() {
            return Ok(empty_list());
        }
        let ts = self.elaborate_terms(terms, n - 1)?;
        let t = self.elaborate_term(&terms[n - 1])?;
        Ok(pushed(ts, t))
    }

    fn bind_fields(&mut self, names: &Vec<syntax::Name>, fields: &Vec<Name>, hyps: &Vec<Name>)
        requires
            names.len() == fields.len(),
        ensures
            final(self)@ == (LocalElabCxView {
                locals: old(self)@.locals + bind_names(
                    names.deep_view(),
                    fields.deep_view(),
                    names.len() as nat,
                ) + bind_nameless(hyps.deep_view(), hyps.len() as nat),
                ..old(self)@
            }),
            *final(final(self).cx) == *final(old(self).cx),
            final(self).cx.module == old(self).cx.module,
    {
        let ghost start = self.locals.deep_view();
        let mut n: usize = 0;
        assert(self.locals.deep_view() =~= start + bind_names(
            names.deep_view(),
            fields.deep_view(),
            0,
        ));
        while n < names.len()
            invariant
                n <= names.len(),
                names.len() == fields.len(),
                self.cx == old(self).cx,
                self.locals.deep_view() == start + bind_names(
                    names.deep_view(),
                    fields.deep_view(),
                    n as nat,
                ),
            decreases names.len() - n,
        {
            let ghost before = self.locals.deep_view();
            let entry = (names[n].clone(), fields[n].clone());
            self.locals.push(entry);
            assert(self.locals.deep_view() =~= before.push((names[n as int]@, fields[n as int]@)));
            assert(bind_names(names.deep_view(), fields.deep_view(), (n + 1) as nat) == bind_names(
                names.deep_view(),
                fields.deep_view(),
                n as nat,
            ).push((names[n as int]@, fields[n as int]@)));
            assert(self.locals.deep_view() =~= start + bind_names(
                names.deep_view(),
                fields.deep_view(),
                (n + 1) as nat,
            ));
            n += 1;
        }
        let ghost middle = self.locals.deep_view();
        let mut k: usize = 0;
        assert(self.locals.deep_view() =~= middle + bind_nameless(hyps.deep_view(), 0));
        while k < hyps.len()
            invariant
                k <= hyps.len(),
                self.cx == old(self).cx,
                self.locals.deep_view() == middle + bind_nameless(hyps.deep_view(), k as nat),
            decreases hyps.len() - k,
        {
            let ghost before = self.locals.deep_view();
            let entry = (nameless_name(), hyps[k].clone());
            self.locals.push(entry);
            assert(self.locals.deep_view() =~= before.push((nameless(), hyps[k as int]@)));
            assert(bind_nameless(hyps.deep_view(), (k + 1) as nat) == bind_nameless(
                hyps.deep_view(),
                k as nat,
            ).push((nameless(), hyps[k as int]@)));
            assert(self.locals.deep_view() =~= middle + bind_nameless(
                hyps.deep_view(),
                (k + 1) as nat,
            ));
            k += 1;
        }
    }

    fn branch(&mut self, motive: &Term, target: &Target, ctor: &Name, case: &syntax::Case) -> (r:
        Result<Term, Error>)
        ensures
            (result_view(r), final(self)@) == old(self)@.branch(motive@, target@, ctor@, case@),
            *final(final(self).cx) == *final(old(self).cx),
            final(self).cx.module == old(self).cx.module,
        decreases case, 2nat,
    {
        let cty = self.cx.ty_cx.global_type(ctor);
        let head = pattern_head_of(&self.cx.constructors, &case.pattern);
        match (cty, head) {
            (Some(cty), Some((_, names))) => {
                let opened = cty.instantiate_all(&target.params);
                let (fields, rest, after) = peel_type(
                    opened,
                    self.cx.ty_cx.local_counter,
                    names.len(),
                );
                match after {
                    None => Err(Error::TypeCk(crate::typeck::Error::OutOfNames)),
                    Some(after_fields) => {
                        if fields.len() != names.len() || rest.is_forall() {
                            Err(Error::InvalidPattern(case.span))
                        } else {
                            let flags = flags_of(&fields, &target.datatype);
                            let (hyps, next) = mint_hypotheses(motive, &fields, &flags, after_fields);
                            match next {
                                None => Err(Error::TypeCk(crate::typeck::Error::OutOfNames)),
                                Some(next) => {
                                    let saved = self.locals.len();
                                    self.cx.ty_cx.local_counter = next;
                                    self.bind_fields(&names, &fields, &hyps);
                                    let body = self.elaborate_term(&case.rhs)?;
                                    self.leave_scope(saved);
                                    Ok(Term::abstract_lambda(join_names(&fields, &hyps), body))
                                },
                            }
                        }
                    },
                }
            },
            (None, _) => Err(Error::TypeCk(crate::typeck::Error::UnknownVariable(ctor.clone()))),
            (_, None) => Err(Error::InvalidPattern(case.span)),
        }
    }

    fn branches(&mut self, motive: &Term, target: &Target, cases: &Vec<syntax::Case>, n: usize) -> (r:
        Result<Vec<Term>, Error>)
        ensures
            (result_view(r), final(self)@) == old(self)@.branches(
                motive@,
                target@,
                syntax::cases_view(cases@, cases@.len()),
                n as nat,
            ),
            *final(final(self).cx) == *final(old(self).cx),
            final(self).cx.module == old(self).cx.module,
        decreases cases, n,
    {
        proof {
            syntax::lemma_cases_view(cases@, cases@.len());
        }
        if n == 0 || n > target.ctors.len() {
            return Ok(empty_list());
        }
        let bs = self.branches(motive, target, cases, n - 1)?;
        let k = self.cx.first_case(&target.ctors, cases, n - 1);
        if k >= cases.len() {
            return Err(Error::MissingCase(target.ctors[n - 1].clone()));
        }
        let b = self.branch(motive, target, &target.ctors[n - 1], &cases[k])?;
        Ok(pushed(bs, b))
    }

    fn elaborate_app(&mut self, term: &syntax::Term) -> (r: Result<Term, Error>)
        requires
            term is App,
        ensures
            (result_view(r), final(self)@) == old(self)@.elaborate_term(term@),
            *final(final(self).cx) == *final(old(self).cx),
            final(self).cx.module == old(self).cx.module,
        decreases term, 0nat,
    {
        match term {
            syntax::Term::App { span, fun, arg } => {
                let efun = self.elaborate_term(fun)?;
                let earg = self.elaborate_term(arg)?;
                Ok(Term::App { span: *span, fun: Box::new(efun), arg: Box::new(earg) })
            },
            _ => vstd::pervasive::unreached(),
        }
    }

    fn elaborate_forall(&mut self, term: &syntax::Term) -> (r: Result<Term, Error>)
        requires
            term is Forall,
        ensures
            (result_view(r), final(self)@) == old(self)@.elaborate_term(term@),
            *final(final(self).cx) == *final(old(self).cx),
            final(self).cx.module == old(self).cx.module,
        decreases term, 0nat,
    {
        match term {
            syntax::Term::Forall { binders, term, .. } => {
                proof {
                    syntax::lemma_binders_view(binders@, binders@.len());
                }
                let saved = self.locals.len();
                let locals = self.enter_first(binders, binders.len())?;
                let inner = self.elaborate_term(term)?;
                self.leave_scope(saved);
                Ok(Term::abstract_pi(locals, inner))
            },
            _ => vstd::pervasive::unreached(),
        }
    }

    fn elaborate_lambda(&mut self, term: &syntax::Term) -> (r: Result<Term, Error>)
        requires
            term is Lambda,
        ensures
            (result_view(r), final(self)@) == old(self)@.elaborate_term(term@),
            *final(final(self).cx) == *final(old(self).cx),
            final(self).cx.module == old(self).cx.module,
        decreases term, 0nat,
    {
        match term {
            syntax::Term::Lambda { args, body, .. } => {
                proof {
                    syntax::lemma_binders_view(args@, args@.len());
                }
                let saved = self.locals.len();
                let locals = self.enter_first(args, args.len())?;
                let ebody = self.elaborate_term(body)?;
                self.leave_scope(saved);
                Ok(Term::abstract_lambda(locals, ebody))
            },
            _ => vstd::pervasive::unreached(),
        }
    }

    fn elaborate_let(&mut self, term: &syntax::Term) -> (r: Result<Term, Error>)
        requires
            term is Let,
        ensures
            (result_view(r), final(self)@) == old(self)@.elaborate_term(term@),
            *final(final(self).cx) == *final(old(self).cx),
            final(self).cx.module == old(self).cx.module,
        decreases term, 0nat,
    {
        match term {
            syntax::Term::Let { binders, values, body, .. } => {
                proof {
                    syntax::lemma_binders_view(binders@, binders@.len());
                    syntax::lemma_terms_view(values@, values@.len());
                }
                let saved = self.locals.len();
                let terms = self.elaborate_terms(values, values.len())?;
                let locals = self.enter_first(binders, binders.len())?;
                let ebody = self.elaborate_term(body)?;
                self.leave_scope(saved);
                Ok(Term::apply_all(Term::abstract_lambda(locals, ebody), terms))
            },
            _ => vstd::pervasive::unreached(),
        }
    }

    fn elaborate_match(&mut self, term: &syntax::Term) -> (r: Result<Term, Error>)
        requires
            term is Match,
        ensures
            (result_view(r), final(self)@) == old(self)@.elaborate_term(term@),
            *final(final(self).cx) == *final(old(self).cx),
            final(self).cx.module == old(self).cx.module,
        decreases term, 0nat,
    {
        match term {
            syntax::Term::Match { span, scrutinee, cases } => {
                proof {
                    syntax::lemma_cases_view(cases@, cases@.len());
                }
                let escrut = self.elaborate_term(scrutinee)?;
                let target = self.scrutinee_type(*span, &escrut)?;
                match self.cx.check_cases(&target.ctors, cases) {
                    Some(e) => Err(e),
                    None => {
                        let motive = self.meta_in_context(motive_type_of(&target.ty))?;
                        let bs = self.branches(&motive, &target, cases, target.ctors.len())?;
                        assert(target.params.deep_view().subrange(
                            0,
                            target.params.len() as int,
                        ) =~= target.params.deep_view());
                        let args = pushed(
                            crate::typeck::sub_terms(&target.params, 0, target.params.len()),
                            motive,
                        );
                        let args = pushed(joined(args, bs), escrut);
                        assert(args.deep_view() =~= target@.params.push(motive@) + bs.deep_view()
                            + seq![escrut@]);
                        Ok(Term::apply_all(target.recursor.to_term(), args))
                    },
                }
            },
            _ => vstd::pervasive::unreached(),
        }
    }

    /// Lowers a term of the source to the core language.
    ///
    /// Literals, `Type` and applications carry over with their spans. A
    /// variable is resolved as a name is, and a placeholder becomes a
    /// metavariable in context. A function type and a lambda enter a scope
    /// with their binders and are abstracted over its locals. A `let`
    /// becomes a lambda over its binders applied to the bound terms. A
    /// `match` becomes the recursor of the scrutinee's datatype applied to
    /// the parameters, a metavariable in context for the motive, one branch for each
    /// constructor, and the scrutinee; a case that is missing, redundant or
    /// not a constructor applied to names is an error.
    pub fn elaborate_term(&mut self, term: &syntax::Term) -> (r: Result<Term, Error>)
        ensures
            (result_view(r), final(self)@) == old(self)@.elaborate_term(term@),
            *final(final(self).cx) == *final(old(self).cx),
            final(self).cx.module == old(self).cx.module,
        decreases term, 1nat,
    {
        match term {
            syntax::Term::Literal { span, lit } => Ok(
                Term::Literal { span: *span, lit: elaborate_literal(*lit) },
            ),
            syntax::Term::Var { name } => self.elaborate_var(name),
            syntax::Term::Type => Ok(Term::Type),
            syntax::Term::App { .. } => self.elaborate_app(term),
            syntax::Term::Forall { .. } => self.elaborate_forall(term),
            syntax::Term::Lambda { .. } => self.elaborate_lambda(term),
            syntax::Term::Let { .. } => self.elaborate_let(term),
            syntax::Term::Match { .. } => self.elaborate_match(term),
        }
    }

}


impl<'ecx> LocalElabCx<'ecx> {
    fn elaborate_ctor(&mut self, parameters: &Vec<Name>, ctor: &(syntax::Name, syntax::Term)) -> (r:
        Result<(Name, Term), Error>)
        ensures
            (result_view(r), final(self)@) == old(self)@.elaborate_ctor(
                parameters.deep_view(),
                ctor.0@,
                ctor.1@,
            ),
            *final(final(self).cx) == *final(old(self).cx),
            final(self).cx.module == old(self).cx.module,
    {
        let ename = self.cx.elaborate_global_name(&ctor.0)?;
        let ety = self.elaborate_term(&ctor.1)?;
        let ety = Term::abstract_pi(clone_names(parameters), ety);
        Ok((ename, ety))
    }

    fn elaborate_ctors(
        &mut self,
        parameters: &Vec<Name>,
        ctors: &Vec<(syntax::Name, syntax::Term)>,
        n: usize,
    ) -> (r: Result<Vec<(Name, Term)>, Error>)
        ensures
            (result_view(r), final(self)@) == old(self)@.elaborate_ctors(
                parameters.deep_view(),
                syntax::ctors_view(ctors@, ctors@.len()),
                n as nat,
            ),
            *final(final(self).cx) == *final(old(self).cx),
            final(self).cx.module == old(self).cx.module,
        decreases n,
    {
        proof {
            syntax::lemma_ctors_view(ctors@, ctors@.len());
        }
        if n == 0 || n > ctors.len() {
            return Ok(empty_list());
        }
        let cs = self.elaborate_ctors(parameters, ctors, n - 1)?;
        let c = self.elaborate_ctor(parameters, &ctors[n - 1])?;
        Ok(pushed(cs, c))
    }
}

fn surface_names(ctors: &Vec<(syntax::Name, syntax::Term)>) -> (r: Vec<syntax::Name>)
    ensures
        r.deep_view() == ctor_surface_names(syntax::ctors_view(ctors@, ctors@.len()), ctors@.len()),
{
    let mut out: Vec<syntax::Name> = empty_list();
    let mut n: usize = 0;
    while n < ctors.len()
        invariant
            n <= ctors.len(),
            out.deep_view() == ctor_surface_names(
                syntax::ctors_view(ctors@, ctors@.len()),
                n as nat,
            ),
        decreases ctors.len() - n,
    {
        proof {
            syntax::lemma_ctors_view(ctors@, ctors@.len());
        }
        out = pushed(out, ctors[n].0.clone());
        n += 1;
    }
    out
}
/// The module without a name and without items, which stands in for a module that is being elaborated.
fn empty_module() -> (r: syntax::Module)
    ensures
        r@ == (syntax::ModuleView { span: Span::none(), name: nameless(), items: Seq::empty() }),
{
    syntax::Module {
        span: Span::dummy(),
        name: syntax::Name { span: Span::dummy(), repr: syntax::NameKind::Placeholder },
        items: Vec::new(),
    }
}

impl ElabCx {
    fn elaborate_data(&mut self, data: &syntax::Inductive) -> (r: Result<Data, Error>)
        ensures
            (result_view(r), final(self)@) == old(self)@.elaborate_data(data@),
            final(self).module == old(self).module,
    {
        proof {
            syntax::lemma_binders_view(data.parameters@, data.parameters@.len());
            syntax::lemma_ctors_view(data.ctors@, data.ctors@.len());
        }
        let ast_rec_name = match data.name.in_scope("rec".to_owned()) {
            None => {
                return Err(Error::UnexpectedQualifiedName);
            },
            Some(n) => n,
        };
        let ty_name = self.elaborate_global_name(&data.name)?;
        let rec_name = match ty_name.in_scope("rec".to_owned()) {
            None => {
                return Err(Error::UnexpectedQualifiedName);
            },
            Some(n) => n,
        };
        let ghost before = self.globals.deep_view();
        self.globals.push((ast_rec_name, rec_name));
        assert(self.globals.deep_view() =~= before.push((ast_rec_name@, rec_name@)));
        let mut lcx = LocalElabCx::from_elab_cx(self);
        let params = lcx.enter_scope(&data.parameters)?;
        let ctors = lcx.elaborate_ctors(&params, &data.ctors, data.ctors.len())?;
        let ty = lcx.elaborate_term(&data.ty)?;
        let ty = Term::abstract_pi(clone_names(&params), ty);
        Ok(Data { span: data.span, name: ty_name, parameters: params, ty, ctors })
    }

    fn elaborate_fn(&mut self, fun: &syntax::Def) -> (r: Result<Function, Error>)
        ensures
            (result_view(r), final(self)@) == old(self)@.elaborate_fn(fun@),
            final(self).module == old(self).module,
    {
        proof {
            syntax::lemma_binders_view(fun.args@, fun.args@.len());
        }
        let mut lcx = LocalElabCx::from_elab_cx(self);
        let args = lcx.enter_scope(&fun.args)?;
        let name = lcx.cx.elaborate_global_name(&fun.name)?;
        let ty = lcx.elaborate_term(&fun.ty)?;
        let ebody = lcx.elaborate_term(&fun.body)?;
        Ok(
            Function {
                name,
                ret_ty: Term::abstract_pi(clone_names(&args), ty),
                body: Term::abstract_lambda(clone_names(&args), ebody),
                args,
            },
        )
    }

    fn elaborate_extern(&mut self, ext: &syntax::Extern) -> (r: Result<Extern, Error>)
        ensures
            (result_view(r), final(self)@) == old(self)@.elaborate_extern(ext@),
            final(self).module == old(self).module,
    {
        let name = self.elaborate_global_name(&ext.name)?;
        let mut lcx = LocalElabCx::from_elab_cx(self);
        let term = lcx.elaborate_term(&ext.term)?;
        Ok(Extern { span: ext.span, name, term })
    }

    /// Elaborates one item of the source: a datatype, a definition or a
    /// constant becomes a core item; a comment or an import becomes none.
    pub fn elaborate_def(&mut self, def: &syntax::Item) -> (r: Result<Option<Item>, Error>)
        ensures
            (result_view(r), final(self)@) == old(self)@.elaborate_def(def@),
            final(self).module == old(self).module,
    {
        match def {
            syntax::Item::Inductive(d) => {
                let edata = self.elaborate_data(d)?;
                Ok(Some(Item::Data(edata)))
            },
            syntax::Item::Def(f) => {
                let efn = self.elaborate_fn(f)?;
                Ok(Some(Item::Fn(efn)))
            },
            syntax::Item::Extern(e) => {
                let ext = self.elaborate_extern(e)?;
                Ok(Some(Item::Extern(ext)))
            },
            syntax::Item::Comment(_) => Ok(None),
            syntax::Item::Import(_) => Ok(None),
        }
    }

    /// The module that an import names; a placeholder names none. Loading
    /// the module is left to the caller.
    pub fn elaborate_import(&self, name: &syntax::Name) -> (r: Result<Name, Error>)
        ensures
            result_view(r) == ElabCxView::elaborate_import(name@),
    {
        match name.to_qualified() {
            Some(q) => Ok(q),
            None => Err(Error::InvalidImport),
        }
    }

    fn prescan(&mut self, items: &Vec<syntax::Item>) -> (r: Result<Vec<Name>, Error>)
        ensures
            (result_view(r), final(self)@) == old(self)@.prescan(
                syntax::items_view(items@, items@.len()),
                items@.len(),
            ),
            final(self).module == old(self).module,
    {
        let mut imports: Vec<Name> = empty_list();
        let mut n: usize = 0;
        while n < items.len()
            invariant
                n <= items.len(),
                self.module == old(self).module,
                (Ok::<Seq<NameView>, ErrorView>(imports.deep_view()), self@) == old(self)@.prescan(
                    syntax::items_view(items@, items@.len()),
                    n as nat,
                ),
            decreases items.len() - n,
        {
            proof {
                syntax::lemma_items_view(items@, items@.len());
            }
            match &items[n] {
                syntax::Item::Inductive(d) => {
                    proof {
                        syntax::lemma_ctors_view(d.ctors@, d.ctors@.len());
                    }
                    let ghost before = self.constructors.deep_view();
                    let mut names = surface_names(&d.ctors);
                    self.constructors.append(&mut names);
                    assert(self.constructors.deep_view() =~= before + ctor_surface_names(
                        syntax::ctors_view(d.ctors@, d.ctors@.len()),
                        d.ctors@.len(),
                    ));
                },
                syntax::Item::Import(name) => {
                    match self.elaborate_import(name) {
                        Err(e) => {
                            proof {
                                lemma_prescan_stops(
                                    old(self)@,
                                    syntax::items_view(items@, items@.len()),
                                    (n + 1) as nat,
                                    items@.len(),
                                );
                            }
                            return Err(e);
                        },
                        Ok(q) => {
                            imports = pushed(imports, q);
                        },
                    }
                },
                _ => {},
            }
            n += 1;
        }
        Ok(imports)
    }

    fn declare(&mut self, item: &Item) -> (r: Result<(), Error>)
        ensures
            (result_view(r), final(self)@) == old(self)@.declare(item@),
            final(self).module == old(self).module,
    {
        match item {
            Item::Data(d) => match self.ty_cx.declare_datatype(d) {
                Err(e) => Err(Error::TypeCk(e)),
                Ok(_) => Ok(()),
            },
            Item::Fn(f) => {
                self.ty_cx.declare_def(f);
                Ok(())
            },
            Item::Extern(e) => {
                self.ty_cx.declare_extern(e);
                Ok(())
            },
        }
    }

    fn elaborate_items(&mut self, items: &Vec<syntax::Item>) -> (r: Result<
        (Vec<Item>, Vec<Error>),
        Error,
    >)
        ensures
            match r {
                Ok(out) => old(self)@.elaborate_items(
                    syntax::items_view(items@, items@.len()),
                    items@.len(),
                ).0 == Ok::<
                    Elaborated,
                    ErrorView,
                >(Elaborated { defs: out.0.deep_view(), errors: out.1.deep_view() }),
                Err(e) => old(self)@.elaborate_items(
                    syntax::items_view(items@, items@.len()),
                    items@.len(),
                ).0 == Err::<
                    Elaborated,
                    ErrorView,
                >(e@),
            },
            final(self)@ == old(self)@.elaborate_items(
                    syntax::items_view(items@, items@.len()),
                    items@.len(),
                ).1,
            final(self).module == old(self).module,
    {
        let mut defs: Vec<Item> = empty_list();
        let mut errors: Vec<Error> = empty_list();
        let mut n: usize = 0;
        while n < items.len()
            invariant
                n <= items.len(),
                self.module == old(self).module,
                (
                    Ok::<Elaborated, ErrorView>(
                        Elaborated { defs: defs.deep_view(), errors: errors.deep_view() },
                    ),
                    self@,
                ) == old(self)@.elaborate_items(
                    syntax::items_view(items@, items@.len()),
                    n as nat,
                ),
            decreases items.len() - n,
        {
            proof {
                syntax::lemma_items_view(items@, items@.len());
            }
            match self.elaborate_def(&items[n]) {
                Err(e) => {
                    errors = pushed(errors, e);
                },
                Ok(None) => {},
                Ok(Some(edef)) => {
                    match self.declare(&edef) {
                        Err(e) => {
                            proof {
                                lemma_elaborate_items_stops(
                                    old(self)@,
                                    syntax::items_view(items@, items@.len()),
                                    (n + 1) as nat,
                                    items@.len(),
                                );
                            }
                            return Err(e);
                        },
                        Ok(_) => {
                            defs = pushed(defs, edef);
                        },
                    }
                },
            }
            n += 1;
        }
        Ok((defs, errors))
    }

    fn elaborate_in(&mut self, module: &syntax::Module, path: String) -> (r: Result<Module, Error>)
        ensures
            (result_view(r), final(self)@) == old(self)@.elaborate_module(module@, path@),
            final(self).module == old(self).module,
    {
        proof {
            syntax::lemma_items_view(module.items@, module.items@.len());
        }
        let name = self.elaborate_global_name(&module.name)?;
        let imports = self.prescan(&module.items)?;
        let (defs, errors) = self.elaborate_items(&module.items)?;
        if errors.len() != 0 {
            return Err(many(errors));
        }
        let module = Module { file_name: path, name, defs, imports };
        match self.ty_cx.type_check_module(&module) {
            Err(e) => Err(Error::TypeCk(e)),
            Ok(constraints) => {
                self.constraints = constraints;
                Ok(module)
            },
        }
    }

    /// Elaborates the module that the state was made for.
    ///
    /// The module's own name is made global. A first pass over the items
    /// records the constructor names and resolves the imports; a second
    /// elaborates each item and declares it at once, so that the items
    /// behind it see it. The errors of the items are gathered, and one
    /// failing item does not end the pass. If no item failed, the constraints
    /// of the module are generated and kept in `constraints`.
    ///
    /// Provided that the state was in order (every recorded global a
    /// qualified name, and no local in any declaration), no local is free in
    /// the items of the module that comes out; every datatype among them is
    /// in scope afterwards with its constructors and its recursor, the
    /// recursor with the type of the eliminator; and the constructor names of
    /// every datatype of the source are recorded.
    pub fn elaborate_module(&mut self, path: String) -> (r: Result<Module, Error>)
        ensures
            (result_view(r), final(self)@) == old(self)@.elaborate_module(old(self).module@, path@),
            final(self).module == old(self).module,
            crate::scope::module_in_order(old(self)@) ==> (r matches Ok(m) ==> forall|i: int|
                0 <= i < m@.defs.len() ==> crate::scope::item_closed(#[trigger] m@.defs[i])),
            crate::scope::module_in_order(old(self)@) ==> (r matches Ok(m) ==> forall|i: int|
                0 <= i < m@.defs.len() ==> crate::declared::item_in_scope(
                    final(self).ty_cx@,
                    #[trigger] m@.defs[i],
                )),
            crate::scope::module_in_order(old(self)@) ==> (r is Ok ==> forall|i: int|
                0 <= i < old(self).module@.items.len() ==> crate::declared::ctors_known(
                    final(self)@.constructors,
                    #[trigger] old(self).module@.items[i],
                )),
    {
        let ghost start = self@;
        let mut module = empty_module();
        core::mem::swap(&mut self.module, &mut module);
        proof {
            if crate::scope::module_in_order(start) {
                crate::scope::lemma_module_closed(start, module@, path@);
                crate::declared::lemma_module_declares(start, module@, path@);
            }
        }
        let r = self.elaborate_in(&module, path);
        core::mem::swap(&mut self.module, &mut module);
        r
    }
}


/// Once an import has failed, the items behind it are not scanned.
pub proof fn lemma_prescan_stops(cx: ElabCxView, items: Seq<syntax::ItemView>, k: nat, n: nat)
    requires
        k <= n <= items.len(),
        cx.prescan(items, k).0 is Err,
    ensures
        cx.prescan(items, n) == cx.prescan(items, k),
    decreases n,
{
    if n > k {
        lemma_prescan_stops(cx, items, k, (n - 1) as nat);
    }
}

/// Once a declaration has failed, the items behind it are not elaborated.
pub proof fn lemma_elaborate_items_stops(cx: ElabCxView, items: Seq<syntax::ItemView>, k: nat, n: nat)
    requires
        k <= n <= items.len(),
        cx.elaborate_items(items, k).0 is Err,
    ensures
        cx.elaborate_items(items, n) == cx.elaborate_items(items, k),
    decreases n,
{
    if n > k {
        lemma_elaborate_items_stops(cx, items, k, (n - 1) as nat);
    }
}

} // verus!
