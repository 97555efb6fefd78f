//! The global environment: what is declared, the supply of fresh locals,
//! and reduction to weak head normal form.

use vstd::prelude::*;
use crate::span::Span;
use crate::views::result_view;
use crate::term::{Binder, Name, NameView, Term, TermView};

verus! {

/// The most reduction steps that one evaluation takes, and the deepest that
/// reduction looks into the scrutinee of a recursor.
pub const REDUCTION_LIMIT: usize = 128;

/// The text that is being elaborated, and where it came from.
#[derive(Debug)]
pub struct SourceMap {
    pub file_name: String,
    pub source: String,
}

/// Whether a definition may be unfolded during reduction.
#[derive(Clone, Copy, Debug, PartialEq, Eq, Structural)]
pub enum Reduction {
    Reducible,
    Irreducible,
}

/// What a recursor knows of one constructor: the number of its fields, and
/// which of them are of the datatype itself.
#[derive(Debug)]
pub struct CtorShape {
    pub fields: usize,
    pub recursive: Vec<bool>,
}

/// What kind of thing a global name stands for.
#[derive(Debug)]
#[allow(inconsistent_fields)]
pub enum Kind {
    /// A constant of which only the type is known.
    Axiom,
    /// An inductive datatype, with the names of its constructors in the order of their declaration.
    Datatype { params: usize, ctors: Vec<Name>, recursor: Name },
    /// The constructor at place `index` of a datatype.
    Constructor { datatype: Name, index: usize, fields: usize },
    /// The eliminator of a datatype.
    Recursor { datatype: Name, params: usize, ctors: Vec<CtorShape> },
    /// A definition with its body.
    Definition { args: Vec<Name>, body: Term, reduction: Reduction },
}

/// A global name with its type and what is known of it.
#[derive(Debug)]
pub struct Declaration {
    pub name: Name,
    pub ty: Term,
    pub kind: Kind,
}

/// A definition as the back end sees it.
#[derive(Debug)]
pub struct Definition {
    pub name: Name,
    pub args: Vec<Name>,
    pub ty: Term,
    pub body: Term,
    pub reduction: Reduction,
}

/// The global environment: every declared name, and the supply of fresh locals.
#[derive(Debug)]
pub struct TyCtxt {
    pub source_map: SourceMap,
    pub declarations: Vec<Declaration>,
    pub local_counter: usize,
}

/// What can go wrong while declaring, reducing and checking.
#[derive(Debug)]
pub enum Error {
    /// A global name that nothing declares.
    UnknownVariable(Name),
    /// A term whose type is no function type was applied: the place, that type, the argument's type.
    ApplicationMismatch(Span, Term, Term),
    /// A name was declared twice.
    DuplicateDeclaration(Name),
    /// A bound variable outside its binder.
    UnboundIndex(Name),
    /// Reduction of the term did not end within the limit.
    ReductionLimit(Term),
    /// The supply of fresh names is used up.
    OutOfNames,
}

pub ghost struct CtorShapeView {
    pub fields: usize,
    pub recursive: Seq<bool>,
}

#[allow(inconsistent_fields)]
pub ghost enum KindView {
    Axiom,
    Datatype { params: usize, ctors: Seq<NameView>, recursor: NameView },
    Constructor { datatype: NameView, index: usize, fields: usize },
    Recursor { datatype: NameView, params: usize, ctors: Seq<CtorShapeView> },
    Definition { args: Seq<NameView>, body: TermView, reduction: Reduction },
}

pub ghost struct DeclarationView {
    pub name: NameView,
    pub ty: TermView,
    pub kind: KindView,
}

pub ghost struct DefinitionView {
    pub name: NameView,
    pub args: Seq<NameView>,
    pub ty: TermView,
    pub body: TermView,
    pub reduction: Reduction,
}

pub ghost struct TyCtxtView {
    pub file_name: Seq<char>,
    pub source: Seq<char>,
    pub declarations: Seq<DeclarationView>,
    pub local_counter: usize,
}

pub ghost enum ErrorView {
    UnknownVariable(NameView),
    ApplicationMismatch(Span, TermView, TermView),
    DuplicateDeclaration(NameView),
    UnboundIndex(NameView),
    ReductionLimit(TermView),
    OutOfNames,
}

impl View for CtorShape {
    type V = CtorShapeView;

    open spec fn view(&self) -> CtorShapeView {
        CtorShapeView { fields: self.fields, recursive: self.recursive@ }
    }
}

impl DeepView for CtorShape {
    type V = CtorShapeView;

    open spec fn deep_view(&self) -> CtorShapeView {
        self@
    }
}

impl View for Kind {
    type V = KindView;

    open spec fn view(&self) -> KindView {
        match *self {
            Kind::Axiom => KindView::Axiom,
            Kind::Datatype { params, ctors, recursor } => KindView::Datatype {
                params,
                ctors: ctors.deep_view(),
                recursor: recursor@,
            },
            Kind::Constructor { datatype, index, fields } => KindView::Constructor {
                datatype: datatype@,
                index,
                fields,
            },
            Kind::Recursor { datatype, params, ctors } => KindView::Recursor {
                datatype: datatype@,
                params,
                ctors: ctors.deep_view(),
            },
            Kind::Definition { args, body, reduction } => KindView::Definition {
                args: args.deep_view(),
                body: body@,
                reduction,
            },
        }
    }
}

impl View for Declaration {
    type V = DeclarationView;

    open spec fn view(&self) -> DeclarationView {
        DeclarationView { name: self.name@, ty: self.ty@, kind: self.kind@ }
    }
}

impl DeepView for Declaration {
    type V = DeclarationView;

    open spec fn deep_view(&self) -> DeclarationView {
        self@
    }
}

impl View for Definition {
    type V = DefinitionView;

    open spec fn view(&self) -> DefinitionView {
        DefinitionView {
            name: self.name@,
            args: self.args.deep_view(),
            ty: self.ty@,
            body: self.body@,
            reduction: self.reduction,
        }
    }
}

impl DeepView for Definition {
    type V = DefinitionView;

    open spec fn deep_view(&self) -> DefinitionView {
        self@
    }
}

impl View for TyCtxt {
    type V = TyCtxtView;

    open spec fn view(&self) -> TyCtxtView {
        TyCtxtView {
            file_name: self.source_map.file_name@,
            source: self.source_map.source@,
            declarations: self.declarations.deep_view(),
            local_counter: self.local_counter,
        }
    }
}

impl View for Error {
    type V = ErrorView;

    open spec fn view(&self) -> ErrorView {
        match *self {
            Error::UnknownVariable(n) => ErrorView::UnknownVariable(n@),
            Error::ApplicationMismatch(span, t, u) => ErrorView::ApplicationMismatch(span, t@, u@),
            Error::DuplicateDeclaration(n) => ErrorView::DuplicateDeclaration(n@),
            Error::UnboundIndex(n) => ErrorView::UnboundIndex(n@),
            Error::ReductionLimit(t) => ErrorView::ReductionLimit(t@),
            Error::OutOfNames => ErrorView::OutOfNames,
        }
    }
}

impl DeepView for Error {
    type V = ErrorView;

    open spec fn deep_view(&self) -> ErrorView {
        self@
    }
}

/// The first index at or after `i` at which `n` is declared; the length of `decls` if there is none.
pub open spec fn index_of(decls: Seq<DeclarationView>, n: NameView, i: int) -> int
    decreases decls.len() - i,
{
    if i < 0 || i >= decls.len() {
        decls.len() as int
    } else if decls[i].name.same(n) {
        i
    } else {
        index_of(decls, n, i + 1)
    }
}

/// The induction hypotheses for the first `n` of `fields`: `prefix` applied
/// to each field that is of the datatype itself.
pub open spec fn hypotheses(
    prefix: TermView,
    recursive: Seq<bool>,
    fields: Seq<TermView>,
    n: nat,
) -> Seq<TermView>
    decreases n,
{
    if n == 0 || n > fields.len() {
        Seq::empty()
    } else {
        let before = hypotheses(prefix, recursive, fields, (n - 1) as nat);
        if n - 1 < recursive.len() && recursive[n - 1] {
            before.push(
                TermView::App {
                    span: Span::none(),
                    fun: Box::new(prefix),
                    arg: Box::new(fields[n - 1]),
                },
            )
        } else {
            before
        }
    }
}

impl TyCtxtView {
    /// What is declared under the name `n`: the first declaration of it.
    pub open spec fn lookup(self, n: NameView) -> Option<DeclarationView> {
        let i = index_of(self.declarations, n, 0);
        if i < self.declarations.len() {
            Some(self.declarations[i])
        } else {
            None
        }
    }

    /// Whether `name` is a declared global name.
    pub open spec fn in_scope(self, name: NameView) -> bool {
        name is Qual && self.lookup(name) is Some
    }

    /// The type under which the global `name` was declared.
    pub open spec fn global_type(self, name: NameView) -> Option<TermView> {
        match self.lookup(name) {
            Some(d) => Some(d.ty),
            None => None,
        }
    }

    /// Whether reduction can begin at the global `name`: it is a reducible
    /// definition or the recursor of a datatype.
    pub open spec fn head_reducible(self, name: NameView) -> bool {
        name is Qual && match self.lookup(name) {
            Some(d) => match d.kind {
                KindView::Definition { reduction, .. } => reduction == Reduction::Reducible,
                KindView::Recursor { .. } => true,
                _ => false,
            },
            None => false,
        }
    }

    /// The place among the constructors of `datatype`, if `major` is one of
    /// them applied to `params` parameters and all of its fields.
    pub open spec fn constructor_of(self, datatype: NameView, params: usize, major: TermView) -> Option<
        usize,
    > {
        match major.head() {
            TermView::Var { name } => if name is Qual {
                match self.lookup(name) {
                    Some(d) => match d.kind {
                        KindView::Constructor { datatype: of, index, fields } => if of.same(datatype)
                            && major.args().len() == params + fields {
                            Some(index)
                        } else {
                            None
                        },
                        _ => None,
                    },
                    None => None,
                }
            } else {
                None
            },
            _ => None,
        }
    }

    /// The step of a recursor whose head is `head` and whose arguments are
    /// `args`: to the branch of the constructor that the scrutinee is built
    /// with, or else one step inside the scrutinee.
    pub open spec fn iota(
        self,
        depth: nat,
        head: TermView,
        datatype: NameView,
        params: usize,
        ctors: Seq<CtorShapeView>,
        args: Seq<TermView>,
    ) -> Option<TermView>
        decreases depth, 0nat,
    {
        let major_at = params + 1 + ctors.len();
        if args.len() <= major_at {
            None
        } else {
            let major = args[major_at];
            match self.constructor_of(datatype, params, major) {
                Some(i) => if i < ctors.len() {
                    let fields = major.args().subrange(params as int, major.args().len() as int);
                    let prefix = TermView::apply_all(head, args.subrange(0, major_at));
                    let hyps = hypotheses(prefix, ctors[i as int].recursive, fields, fields.len());
                    let rest = args.subrange(major_at + 1, args.len() as int);
                    Some(TermView::apply_all(args[params + 1 + i], fields + hyps + rest))
                } else {
                    None
                },
                None => if depth == 0 {
                    None
                } else {
                    match self.step((depth - 1) as nat, major) {
                        Some(next) => Some(
                            TermView::apply_all(
                                head,
                                args.subrange(0, major_at).push(next) + args.subrange(
                                    major_at + 1,
                                    args.len() as int,
                                ),
                            ),
                        ),
                        None => None,
                    }
                },
            }
        }
    }

    /// One step of reduction at the head of `t`, if there is one: a lambda
    /// applied to an argument, a reducible definition unfolded, or a recursor
    /// applied to a constructor. `depth` bounds how far the search goes into
    /// nested scrutinees.
    pub open spec fn step(self, depth: nat, t: TermView) -> Option<TermView>
        decreases depth, 1nat,
    {
        let args = t.args();
        match t.head() {
            TermView::Lambda { body, .. } => if args.len() > 0 {
                Some(
                    TermView::apply_all(
                        body.open_with(args[0], 0),
                        args.subrange(1, args.len() as int),
                    ),
                )
            } else {
                None
            },
            TermView::Var { name } => if name is Qual {
                match self.lookup(name) {
                    Some(d) => match d.kind {
                        KindView::Definition { body, reduction, .. } => if reduction
                            == Reduction::Reducible {
                            Some(TermView::apply_all(body, args))
                        } else {
                            None
                        },
                        KindView::Recursor { datatype, params, ctors } => self.iota(
                            depth,
                            t.head(),
                            datatype,
                            params,
                            ctors,
                            args,
                        ),
                        _ => None,
                    },
                    None => None,
                }
            } else {
                None
            },
            _ => None,
        }
    }

    /// Whether `t` can take a step of reduction.
    pub open spec fn is_bi_reducible(self, t: TermView) -> bool {
        self.step(REDUCTION_LIMIT as nat, t) is Some
    }

    /// The normal form that `t` reaches within `fuel` further steps; `None` if it reaches none.
    pub open spec fn eval_within(self, fuel: nat, t: TermView) -> Option<TermView>
        decreases fuel,
    {
        match self.step(REDUCTION_LIMIT as nat, t) {
            None => Some(t),
            Some(next) => if fuel == 0 {
                None
            } else {
                self.eval_within((fuel - 1) as nat, next)
            },
        }
    }

    /// The weak head normal form of `t`, or the error that says that the limit was reached.
    pub open spec fn eval(self, t: TermView) -> Result<TermView, ErrorView> {
        match self.eval_within(REDUCTION_LIMIT as nat, t) {
            Some(r) => Ok(r),
            None => Err(ErrorView::ReductionLimit(t)),
        }
    }

    /// The metavariable that blocks reduction of `t`: the head of its spine,
    /// or what blocks the scrutinee of the recursor at its head.
    pub open spec fn stuck_on(self, depth: nat, t: TermView) -> Option<NameView>
        decreases depth,
    {
        match t.head() {
            TermView::Var { name } => if name is Meta {
                Some(name)
            } else if name is Qual {
                match self.lookup(name) {
                    Some(d) => match d.kind {
                        KindView::Recursor { params, ctors, .. } => if depth > 0 && t.args().len()
                            > params + 1 + ctors.len() {
                            self.stuck_on((depth - 1) as nat, t.args()[params + 1 + ctors.len()])
                        } else {
                            None
                        },
                        _ => None,
                    },
                    None => None,
                }
            } else {
                None
            },
            _ => None,
        }
    }

    /// The metavariable that blocks reduction of `t`, if one does.
    pub open spec fn is_stuck(self, t: TermView) -> Option<NameView> {
        self.stuck_on(REDUCTION_LIMIT as nat, t)
    }

    /// The local that the context mints next, with the given printed form and type.
    pub open spec fn next_local(self, repr: Seq<char>, ty: TermView) -> NameView {
        NameView::Local { span: Span::none(), number: self.local_counter, repr, ty: Box::new(ty) }
    }

    /// The context after it has minted one local.
    pub open spec fn minted(self) -> TyCtxtView {
        TyCtxtView { local_counter: (self.local_counter + 1) as usize, ..self }
    }

    /// The context with one more declaration, behind those that it has.
    pub open spec fn declare(self, d: DeclarationView) -> TyCtxtView {
        TyCtxtView { declarations: self.declarations.push(d), ..self }
    }
}


/// Copies the terms of `v` from index `from` up to, not including, index `to`.
pub fn sub_terms(v: &Vec<Term>, from: usize, to: usize) -> (r: Vec<Term>)
    requires
        from <= to <= v.len(),
    ensures
        r.deep_view() == v.deep_view().subrange(from as int, to as int),
{
    let mut out: Vec<Term> = Vec::new();
    let mut i: usize = from;
    while i < to
        invariant
            from <= i <= to <= v.len(),
            out.len() == i - from,
            forall|k: int| 0 <= k < i - from ==> out[k]@ == v[from + k]@,
        decreases to - i,
    {
        out.push(v[i].clone());
        i += 1;
    }
    assert(out.deep_view() =~= v.deep_view().subrange(from as int, to as int));
    out
}

/// Moves the terms of `more` behind those of `v`.
pub fn append_terms(v: &mut Vec<Term>, more: Vec<Term>)
    ensures
        final(v).deep_view() == old(v).deep_view() + more.deep_view(),
{
    let ghost before = v.deep_view();
    let mut i: usize = 0;
    while i < more.len()
        invariant
            i <= more.len(),
            v.deep_view() == before + more.deep_view().subrange(0, i as int),
        decreases more.len() - i,
    {
        let ghost cur = v.deep_view();
        v.push(more[i].clone());
        assert(v.deep_view() =~= cur.push(more[i as int]@));
        assert(v.deep_view() =~= before + more.deep_view().subrange(0, i as int + 1));
        i += 1;
    }
    assert(more.deep_view().subrange(0, more.len() as int) =~= more.deep_view());
}

/// The induction hypotheses for `fields`: `prefix` applied to each field that `recursive` marks.
pub fn make_hypotheses(prefix: &Term, recursive: &Vec<bool>, fields: &Vec<Term>) -> (r: Vec<Term>)
    ensures
        r.deep_view() == hypotheses(prefix@, recursive@, fields.deep_view(), fields.len() as nat),
{
    let mut out: Vec<Term> = Vec::new();
    let mut n: usize = 0;
    assert(out.deep_view() =~= Seq::<TermView>::empty());
    while n < fields.len()
        invariant
            n <= fields.len(),
            out.deep_view() == hypotheses(prefix@, recursive@, fields.deep_view(), n as nat),
        decreases fields.len() - n,
    {
        if n < recursive.len() && recursive[n] {
            let ghost cur = out.deep_view();
            out.push(
                Term::App {
                    span: Span::dummy(),
                    fun: Box::new(prefix.clone()),
                    arg: Box::new(fields[n].clone()),
                },
            );
            assert(out.deep_view() =~= cur.push(
                TermView::App {
                    span: Span::none(),
                    fun: Box::new(prefix@),
                    arg: Box::new(fields[n as int]@),
                },
            ));
        }
        n += 1;
    }
    out
}

impl Clone for Error {
    fn clone(&self) -> (r: Error)
        ensures
            r@ == self@,
    {
        match self {
            Error::UnknownVariable(n) => Error::UnknownVariable(n.clone()),
            Error::ApplicationMismatch(span, t, u) => Error::ApplicationMismatch(
                *span,
                t.clone(),
                u.clone(),
            ),
            Error::DuplicateDeclaration(n) => Error::DuplicateDeclaration(n.clone()),
            Error::UnboundIndex(n) => Error::UnboundIndex(n.clone()),
            Error::ReductionLimit(t) => Error::ReductionLimit(t.clone()),
            Error::OutOfNames => Error::OutOfNames,
        }
    }
}

impl Clone for SourceMap {
    fn clone(&self) -> (r: SourceMap)
        ensures
            r.file_name@ == self.file_name@,
            r.source@ == self.source@,
    {
        SourceMap { file_name: self.file_name.clone(), source: self.source.clone() }
    }
}

impl SourceMap {
    pub fn new(file_name: String, source: String) -> (r: SourceMap)
        ensures
            r.file_name@ == file_name@,
            r.source@ == source@,
    {
        SourceMap { file_name, source }
    }
}

impl TyCtxt {
    /// A context that declares nothing, over an empty source text.
    pub fn empty() -> (r: TyCtxt)
        ensures
            r@ == (TyCtxtView {
                file_name: Seq::empty(),
                source: Seq::empty(),
                declarations: Seq::empty(),
                local_counter: 0,
            }),
    {
        let r = TyCtxt {
            source_map: SourceMap { file_name: String::new(), source: String::new() },
            declarations: Vec::new(),
            local_counter: 0,
        };
        assert(r.declarations.deep_view() =~= Seq::<DeclarationView>::empty());
        r
    }

    /// The index of the first declaration of `n`.
    pub fn find(&self, n: &Name) -> (r: Option<usize>)
        ensures
            match r {
                Some(i) => i < self.declarations.len() && index_of(self@.declarations, n@, 0) == i,
                None => index_of(self@.declarations, n@, 0) == self.declarations.len(),
            },
    {
        let mut i: usize = 0;
        while i < self.declarations.len()
            invariant
                i <= self.declarations.len(),
                index_of(self@.declarations, n@, 0) == index_of(self@.declarations, n@, i as int),
            decreases self.declarations.len() - i,
        {
            if self.declarations[i].name.same(n) {
                return Some(i);
            }
            i += 1;
        }
        None
    }

    /// Whether `name` is a declared global name.
    pub fn in_scope(&self, name: &Name) -> (r: bool)
        ensures
            r == self@.in_scope(name@),
    {
        name.is_qual() && self.find(name).is_some()
    }

    /// The type under which the global `name` was declared.
    pub fn global_type(&self, name: &Name) -> (r: Option<Term>)
        ensures
            r.deep_view() == self@.global_type(name@),
    {
        match self.find(name) {
            Some(i) => Some(self.declarations[i].ty.clone()),
            None => None,
        }
    }

    /// Whether reduction can begin at the global `name`.
    pub fn head_reducible(&self, name: &Name) -> (r: bool)
        ensures
            r == self@.head_reducible(name@),
    {
        if !name.is_qual() {
            return false;
        }
        match self.find(name) {
            Some(i) => match &self.declarations[i].kind {
                Kind::Definition { reduction, .. } => match reduction {
                    Reduction::Reducible => true,
                    Reduction::Irreducible => false,
                },
                Kind::Recursor { .. } => true,
                _ => false,
            },
            None => false,
        }
    }

    /// Mints a local that differs from every local minted before, whatever its printed form.
    pub fn local_with_repr(&mut self, repr: String, ty: Term) -> (r: Name)
        requires
            old(self).local_counter < usize::MAX,
        ensures
            r@ == old(self)@.next_local(repr@, ty@),
            final(self)@ == old(self)@.minted(),
    {
        let number = self.local_counter;
        self.local_counter = number + 1;
        Name::Local { span: Span::dummy(), number, repr, ty: Box::new(ty) }
    }

    /// Mints a local unless the supply of numbers is used up.
    pub fn fresh_local(&mut self, repr: String, ty: Term) -> (r: Result<Name, Error>)
        ensures
            old(self).local_counter < usize::MAX ==> r is Ok && r->Ok_0@ == old(self)@.next_local(
                repr@,
                ty@,
            ) && final(self)@ == old(self)@.minted(),
            old(self).local_counter == usize::MAX ==> r is Err && r->Err_0@ == ErrorView::OutOfNames
                && final(self)@ == old(self)@,
    {
        if self.local_counter < usize::MAX {
            Ok(self.local_with_repr(repr, ty))
        } else {
            Err(Error::OutOfNames)
        }
    }

    /// Mints a local with the printed form and the type of `binder`.
    pub fn local(&mut self, binder: &Binder) -> (r: Name)
        requires
            old(self).local_counter < usize::MAX,
        ensures
            r@ == old(self)@.next_local(binder@.name.repr(), *binder@.ty),
            final(self)@ == old(self)@.minted(),
    {
        let repr = binder.name.repr();
        self.local_with_repr(repr, (*binder.ty).clone())
    }

    fn constructor_of(&self, datatype: &Name, params: usize, major: &Term) -> (r: Option<usize>)
        ensures
            r == self@.constructor_of(datatype@, params, major@),
    {
        let head = major.head();
        match &head {
            Term::Var { name } => {
                if !name.is_qual() {
                    return None;
                }
                match self.find(name) {
                    Some(i) => match &self.declarations[i].kind {
                        Kind::Constructor { datatype: of, index, fields } => {
                            let n = major.args().len();
                            if of.same(datatype) && n >= params && n - params == *fields {
                                Some(*index)
                            } else {
                                None
                            }
                        },
                        _ => None,
                    },
                    None => None,
                }
            },
            _ => None,
        }
    }

    fn iota(
        &self,
        depth: usize,
        head: &Term,
        datatype: &Name,
        params: usize,
        ctors: &Vec<CtorShape>,
        args: &Vec<Term>,
    ) -> (r: Option<Term>)
        ensures
            r.deep_view() == self@.iota(
                depth as nat,
                head@,
                datatype@,
                params,
                ctors.deep_view(),
                args.deep_view(),
            ),
        decreases depth, 0nat,
    {
        let n = args.len();
        if params >= n || ctors.len() >= n - params - 1 {
            return None;
        }
        let major_at = params + 1 + ctors.len();
        let major = &args[major_at];
        match self.constructor_of(datatype, params, major) {
            Some(i) => {
                if i < ctors.len() {
                    let margs = major.args();
                    let mut all = sub_terms(&margs, params, margs.len());
                    let prefix = Term::apply_all(head.clone(), sub_terms(args, 0, major_at));
                    let hyps = make_hypotheses(&prefix, &ctors[i].recursive, &all);
                    append_terms(&mut all, hyps);
                    append_terms(&mut all, sub_terms(args, major_at + 1, n));
                    Some(Term::apply_all(args[params + 1 + i].clone(), all))
                } else {
                    None
                }
            },
            None => {
                if depth == 0 {
                    None
                } else {
                    match self.step(depth - 1, major) {
                        Some(next) => {
                            let mut all = sub_terms(args, 0, major_at);
                            let ghost before = all.deep_view();
                            all.push(next);
                            assert(all.deep_view() =~= before.push(next@));
                            append_terms(&mut all, sub_terms(args, major_at + 1, n));
                            Some(Term::apply_all(head.clone(), all))
                        },
                        None => None,
                    }
                }
            },
        }
    }

    /// One step of reduction at the head of `t`, if there is one.
    pub fn step(&self, depth: usize, t: &Term) -> (r: Option<Term>)
        ensures
            r.deep_view() == self@.step(depth as nat, t@),
        decreases depth, 1nat,
    {
        let head = t.head();
        let args = t.args();
        match &head {
            Term::Lambda { body, .. } => {
                if args.len() > 0 {
                    let first = body.open_with(&args[0], 0);
                    Some(Term::apply_all(first, sub_terms(&args, 1, args.len())))
                } else {
                    None
                }
            },
            Term::Var { name } => {
                if !name.is_qual() {
                    return None;
                }
                match self.find(name) {
                    Some(i) => match &self.declarations[i].kind {
                        Kind::Definition { body, reduction, .. } => match reduction {
                            Reduction::Reducible => Some(Term::apply_all(body.clone(), args)),
                            Reduction::Irreducible => None,
                        },
                        Kind::Recursor { datatype, params, ctors } => self.iota(
                            depth,
                            &head,
                            datatype,
                            *params,
                            ctors,
                            &args,
                        ),
                        _ => None,
                    },
                    None => None,
                }
            },
            _ => None,
        }
    }

    /// Whether `t` can take a step of reduction.
    pub fn is_bi_reducible(&self, t: &Term) -> (r: bool)
        ensures
            r == self@.is_bi_reducible(t@),
    {
        self.step(REDUCTION_LIMIT, t).is_some()
    }

    fn eval_within(&self, fuel: usize, t: Term) -> (r: Option<Term>)
        ensures
            r.deep_view() == self@.eval_within(fuel as nat, t@),
        decreases fuel,
    {
        match self.step(REDUCTION_LIMIT, &t) {
            None => Some(t),
            Some(next) => {
                if fuel == 0 {
                    None
                } else {
                    self.eval_within(fuel - 1, next)
                }
            },
        }
    }

    /// Reduces `t` to weak head normal form; fails if that takes more steps than the limit.
    pub fn eval(&self, t: &Term) -> (r: Result<Term, Error>)
        ensures
            result_view(r) == self@.eval(t@),
    {
        match self.eval_within(REDUCTION_LIMIT, t.clone()) {
            Some(r) => Ok(r),
            None => Err(Error::ReductionLimit(t.clone())),
        }
    }

    fn stuck_on(&self, depth: usize, t: &Term) -> (r: Option<Name>)
        ensures
            r.deep_view() == self@.stuck_on(depth as nat, t@),
        decreases depth,
    {
        let head = t.head();
        match &head {
            Term::Var { name } => {
                if name.is_meta() {
                    Some(name.clone())
                } else if name.is_qual() {
                    match self.find(name) {
                        Some(i) => match &self.declarations[i].kind {
                            Kind::Recursor { params, ctors, .. } => {
                                let args = t.args();
                                let n = args.len();
                                if depth > 0 && *params < n && ctors.len() < n - *params - 1 {
                                    self.stuck_on(depth - 1, &args[*params + 1 + ctors.len()])
                                } else {
                                    None
                                }
                            },
                            _ => None,
                        },
                        None => None,
                    }
                } else {
                    None
                }
            },
            _ => None,
        }
    }

    /// The metavariable that blocks reduction of `t`, if one does.
    pub fn is_stuck(&self, t: &Term) -> (r: Option<Name>)
        ensures
            r.deep_view() == self@.is_stuck(t@),
    {
        self.stuck_on(REDUCTION_LIMIT, t)
    }
}


/// The definitions among the first `n` declarations, in their order.
pub open spec fn definitions_of(decls: Seq<DeclarationView>, n: nat) -> Seq<DefinitionView>
    decreases n,
{
    if n == 0 || n > decls.len() {
        Seq::empty()
    } else {
        let before = definitions_of(decls, (n - 1) as nat);
        match decls[n - 1].kind {
            KindView::Definition { args, body, reduction } => before.push(
                DefinitionView {
                    name: decls[n - 1].name,
                    args,
                    ty: decls[n - 1].ty,
                    body,
                    reduction,
                },
            ),
            _ => before,
        }
    }
}

impl TyCtxt {
    /// The definitions that are declared, in the order of their declaration.
    pub fn definitions(&self) -> (r: Vec<Definition>)
        ensures
            r.deep_view() == definitions_of(self@.declarations, self@.declarations.len()),
    {
        let mut out: Vec<Definition> = crate::views::empty_list();
        let mut n: usize = 0;
        while n < self.declarations.len()
            invariant
                n <= self.declarations.len(),
                out.deep_view() == definitions_of(self@.declarations, n as nat),
            decreases self.declarations.len() - n,
        {
            let d = &self.declarations[n];
            match &d.kind {
                Kind::Definition { args, body, reduction } => {
                    out = crate::views::pushed(
                        out,
                        Definition {
                            name: d.name.clone(),
                            args: crate::term::clone_names(args),
                            ty: d.ty.clone(),
                            body: body.clone(),
                            reduction: *reduction,
                        },
                    );
                },
                _ => {},
            }
            n += 1;
        }
        out
    }
}

} // verus!
