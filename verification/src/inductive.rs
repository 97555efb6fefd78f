//! Declaring definitions, constants and inductive datatypes; the recursor
//! of a datatype is built here.

use vstd::prelude::*;
use crate::item::{Data, DataView, Extern, ExternView, Function, FunctionView};
use crate::span::Span;
use crate::term::{clone_names, Name, NameView, Term, TermView};
use crate::typeck::{
    CtorShape, CtorShapeView, Declaration, DeclarationView, Error, ErrorView, Kind, KindView,
    Reduction, TyCtxt, TyCtxtView,
};
use crate::views::result_view;

verus! {

/// Whether the global `n` occurs in `t`, binder types included.
pub open spec fn mentions(t: TermView, n: NameView) -> bool
    decreases t,
{
    match t {
        TermView::Var { name } => name is Qual && name.same(n),
        TermView::App { fun, arg, .. } => mentions(*fun, n) || mentions(*arg, n),
        TermView::Forall { binder, term, .. } => mentions(*binder.ty, n) || mentions(*term, n),
        TermView::Lambda { binder, body, .. } => mentions(*binder.ty, n) || mentions(*body, n),
        _ => false,
    }
}

/// The number of binders at the front of a function type, held at the largest machine number.
pub open spec fn arity(t: TermView) -> usize
    decreases t,
{
    match t {
        TermView::Forall { term, .. } => crate::term::deeper(arity(*term)),
        _ => 0,
    }
}

/// The variables that name the first `n` of `names`.
pub open spec fn names_to_terms(names: Seq<NameView>, n: nat) -> Seq<TermView>
    decreases n,
{
    if n == 0 || n > names.len() {
        Seq::empty()
    } else {
        names_to_terms(names, (n - 1) as nat).push(names[n - 1].to_term())
    }
}

/// A function type taken apart binder by binder.
pub ghost struct Telescope {
    /// The locals that stand for the binders taken off so far.
    pub fields: Seq<NameView>,
    /// What is left of the type, with those locals in place of the bound variables.
    pub rest: TermView,
    /// The number of the next fresh local; `None` when the supply is used up.
    pub next: Option<usize>,
}

/// The first `n` binders of `ty` taken off, each replaced by a fresh local
/// numbered from `next` on.
pub open spec fn peel(ty: TermView, next: usize, n: nat) -> Telescope
    decreases n,
{
    if n == 0 {
        Telescope { fields: Seq::empty(), rest: ty, next: Some(next) }
    } else {
        let before = peel(ty, next, (n - 1) as nat);
        match (before.rest, before.next) {
            (TermView::Forall { binder, term, .. }, Some(number)) => if number == usize::MAX {
                Telescope { next: None, ..before }
            } else {
                let local = NameView::Local {
                    span: Span::none(),
                    number,
                    repr: binder.name.repr(),
                    ty: binder.ty,
                };
                Telescope {
                    fields: before.fields.push(local),
                    rest: term.open_with(local.to_term(), 0),
                    next: Some((number + 1) as usize),
                }
            },
            _ => before,
        }
    }
}

/// For each of the first `n` fields, whether its type is an application of the datatype `of`.
pub open spec fn recursive_flags(fields: Seq<NameView>, of: NameView, n: nat) -> Seq<bool>
    decreases n,
{
    if n == 0 || n > fields.len() {
        Seq::empty()
    } else {
        recursive_flags(fields, of, (n - 1) as nat).push(
            match fields[n - 1] {
                NameView::Local { ty, .. } => ty.head() matches TermView::Var { name } && name is Qual
                    && name.same(of),
                _ => false,
            },
        )
    }
}

/// A list of fresh locals with the number that follows them.
pub ghost struct Minted {
    pub locals: Seq<NameView>,
    pub next: Option<usize>,
}

/// The locals that stand for the induction hypotheses of the first `n`
/// fields: one for each field that `flags` marks, of type `motive` applied to
/// that field.
pub open spec fn hypothesis_locals(
    motive: TermView,
    fields: Seq<NameView>,
    flags: Seq<bool>,
    next: usize,
    n: nat,
) -> Minted
    decreases n,
{
    if n == 0 || n > fields.len() {
        Minted { locals: Seq::empty(), next: Some(next) }
    } else {
        let before = hypothesis_locals(motive, fields, flags, next, (n - 1) as nat);
        match before.next {
            Some(number) => if n - 1 < flags.len() && flags[n - 1] {
                if number == usize::MAX {
                    Minted { next: None, ..before }
                } else {
                    Minted {
                        locals: before.locals.push(
                            NameView::Local {
                                span: Span::none(),
                                number,
                                repr: "ih"@,
                                ty: Box::new(
                                    TermView::App {
                                        span: Span::none(),
                                        fun: Box::new(motive),
                                        arg: Box::new(fields[n - 1].to_term()),
                                    },
                                ),
                            },
                        ),
                        next: Some((number + 1) as usize),
                    }
                }
            } else {
                before
            },
            None => before,
        }
    }
}

/// The branches that a recursor takes, one for each constructor.
pub ghost struct Minors {
    pub locals: Seq<NameView>,
    pub shapes: Seq<CtorShapeView>,
    pub next: Option<usize>,
}

/// The type of the branch for the constructor `ctor` of type `ty`: for all
/// fields, and for an induction hypothesis for each field of the datatype
/// itself, the motive at the constructor applied to the parameters and the fields.
pub open spec fn minor_type(
    motive: TermView,
    params: Seq<TermView>,
    ctor: NameView,
    fields: Seq<NameView>,
    hyps: Seq<NameView>,
) -> TermView {
    TermView::abstract_pi(
        fields + hyps,
        TermView::App {
            span: Span::none(),
            fun: Box::new(motive),
            arg: Box::new(
                TermView::apply_all(
                    ctor.to_term(),
                    params + names_to_terms(fields, fields.len()),
                ),
            ),
        },
    )
}

/// The locals that stand for the branches of the first `n` constructors of
/// `d`, with what the recursor has to know of each constructor.
pub open spec fn minor_locals(d: DataView, motive: TermView, next: usize, n: nat) -> Minors
    decreases n,
{
    if n == 0 || n > d.ctors.len() {
        Minors { locals: Seq::empty(), shapes: Seq::empty(), next: Some(next) }
    } else {
        let before = minor_locals(d, motive, next, (n - 1) as nat);
        match before.next {
            None => before,
            Some(start) => {
                let params = names_to_terms(d.parameters, d.parameters.len());
                let (ctor, ty) = d.ctors[n - 1];
                let opened = ty.instantiate_all(params);
                let tele = peel(opened, start, arity(opened) as nat);
                match tele.next {
                    None => Minors { next: None, ..before },
                    Some(after_fields) => {
                        let flags = recursive_flags(tele.fields, d.name, tele.fields.len());
                        let hyps = hypothesis_locals(
                            motive,
                            tele.fields,
                            flags,
                            after_fields,
                            tele.fields.len(),
                        );
                        match hyps.next {
                            None => Minors { next: None, ..before },
                            Some(number) => if number == usize::MAX {
                                Minors { next: None, ..before }
                            } else {
                                Minors {
                                    locals: before.locals.push(
                                        NameView::Local {
                                            span: Span::none(),
                                            number,
                                            repr: "m"@,
                                            ty: Box::new(
                                                minor_type(
                                                    motive,
                                                    params,
                                                    ctor,
                                                    tele.fields,
                                                    hyps.locals,
                                                ),
                                            ),
                                        },
                                    ),
                                    shapes: before.shapes.push(
                                        CtorShapeView {
                                            fields: tele.fields.len() as usize,
                                            recursive: flags,
                                        },
                                    ),
                                    next: Some((number + 1) as usize),
                                }
                            },
                        }
                    },
                }
            },
        }
    }
}

/// The eliminator of a datatype.
pub ghost struct Recursor {
    pub ty: TermView,
    pub shapes: Seq<CtorShapeView>,
    pub next: usize,
}

/// The recursor of the datatype `d`, built with fresh locals numbered from
/// `next` on: for all parameters, for every motive over the datatype, for a
/// branch for each constructor, and for every value of the datatype, the
/// motive at that value. `None` when the supply of locals is used up.
pub open spec fn recursor_of(d: DataView, next: usize) -> Option<Recursor> {
    if next >= usize::MAX - 1 {
        None
    } else {
        let params = names_to_terms(d.parameters, d.parameters.len());
        let applied = TermView::apply_all(d.name.to_term(), params);
        let over = NameView::Local {
            span: Span::none(),
            number: next,
            repr: "x"@,
            ty: Box::new(applied),
        };
        let motive = NameView::Local {
            span: Span::none(),
            number: (next + 1) as usize,
            repr: "C"@,
            ty: Box::new(TermView::abstract_pi(seq![over], TermView::Type)),
        };
        let minors = minor_locals(d, motive.to_term(), (next + 2) as usize, d.ctors.len());
        match minors.next {
            None => None,
            Some(number) => if number == usize::MAX {
                None
            } else {
                let major = NameView::Local {
                    span: Span::none(),
                    number,
                    repr: "x"@,
                    ty: Box::new(applied),
                };
                Some(
                    Recursor {
                        ty: TermView::abstract_pi(
                            d.parameters + seq![motive] + minors.locals + seq![major],
                            TermView::App {
                                span: Span::none(),
                                fun: Box::new(motive.to_term()),
                                arg: Box::new(major.to_term()),
                            },
                        ),
                        shapes: minors.shapes,
                        next: (number + 1) as usize,
                    },
                )
            },
        }
    }
}

/// The names of the first `n` constructors.
pub open spec fn ctor_names(ctors: Seq<(NameView, TermView)>, n: nat) -> Seq<NameView>
    decreases n,
{
    if n == 0 || n > ctors.len() {
        Seq::empty()
    } else {
        ctor_names(ctors, (n - 1) as nat).push(ctors[n - 1].0)
    }
}

/// The declarations of the first `n` constructors of `d`.
pub open spec fn ctor_declarations(d: DataView, shapes: Seq<CtorShapeView>, n: nat) -> Seq<
    DeclarationView,
>
    decreases n,
{
    if n == 0 || n > d.ctors.len() || n > shapes.len() {
        Seq::empty()
    } else {
        ctor_declarations(d, shapes, (n - 1) as nat).push(
            DeclarationView {
                name: d.ctors[n - 1].0,
                ty: d.ctors[n - 1].1,
                kind: KindView::Constructor {
                    datatype: d.name,
                    index: (n - 1) as usize,
                    fields: shapes[n - 1].fields,
                },
            },
        )
    }
}

/// Whether one of the first `n` constructors has the name `name`.
pub open spec fn named_before(ctors: Seq<(NameView, TermView)>, name: NameView, n: nat) -> bool
    decreases n,
{
    if n == 0 || n > ctors.len() {
        false
    } else {
        ctors[n - 1].0.same(name) || named_before(ctors, name, (n - 1) as nat)
    }
}

/// Whether the constructor at place `i` of `d` cannot be declared under its
/// name: the name is declared already, or it is the name of the datatype,
/// of the recursor `rec_name`, or of a constructor before it.
pub open spec fn ctor_clashes(cx: TyCtxtView, d: DataView, rec_name: NameView, i: int) -> bool {
    let name = d.ctors[i].0;
    cx.lookup(name) is Some || name.same(d.name) || name.same(rec_name) || named_before(
        d.ctors,
        name,
        i as nat,
    )
}

/// The name of the first of the first `n` constructors of `d` that cannot
/// be declared under its name.
pub open spec fn declared_ctor(cx: TyCtxtView, d: DataView, rec_name: NameView, n: nat) -> Option<
    NameView,
>
    decreases n,
{
    if n == 0 || n > d.ctors.len() {
        None
    } else {
        match declared_ctor(cx, d, rec_name, (n - 1) as nat) {
            Some(name) => Some(name),
            None => if ctor_clashes(cx, d, rec_name, n - 1) {
                Some(d.ctors[n - 1].0)
            } else {
                None
            },
        }
    }
}

impl TyCtxtView {
    /// The context after the definition `f` is declared. The definition may
    /// be unfolded unless its body mentions its own name.
    pub open spec fn declare_def(self, f: FunctionView) -> TyCtxtView {
        self.declare(
            DeclarationView {
                name: f.name,
                ty: f.ret_ty,
                kind: KindView::Definition {
                    args: f.args,
                    body: f.body,
                    reduction: if mentions(f.body, f.name) {
                        Reduction::Irreducible
                    } else {
                        Reduction::Reducible
                    },
                },
            },
        )
    }

    /// The context after the constant `e` is declared.
    pub open spec fn declare_extern(self, e: ExternView) -> TyCtxtView {
        self.declare(DeclarationView { name: e.name, ty: e.term, kind: KindView::Axiom })
    }

    /// The name under which the recursor of the datatype `name` is declared.
    pub open spec fn recursor_name(name: NameView) -> Option<NameView> {
        name.in_scope("rec"@)
    }

    /// What declaring the datatype `d` does: the type, its constructors and
    /// its recursor are declared, in this order. A name that is declared
    /// already, or that the datatype would declare twice, is an error, and
    /// so is a datatype whose name is not qualified; the context is then
    /// left as it was.
    pub open spec fn declare_datatype(self, d: DataView) -> (Result<(), ErrorView>, TyCtxtView) {
        match TyCtxtView::recursor_name(d.name) {
            None => (Err(ErrorView::UnknownVariable(d.name)), self),
            Some(rec_name) => if self.lookup(d.name) is Some {
                (Err(ErrorView::DuplicateDeclaration(d.name)), self)
            } else if declared_ctor(self, d, rec_name, d.ctors.len()) is Some {
                (
                    Err(
                        ErrorView::DuplicateDeclaration(
                            declared_ctor(self, d, rec_name, d.ctors.len())->0,
                        ),
                    ),
                    self,
                )
            } else if self.lookup(rec_name) is Some {
                (Err(ErrorView::DuplicateDeclaration(rec_name)), self)
            } else {
                match recursor_of(d, self.local_counter) {
                    None => (Err(ErrorView::OutOfNames), self),
                    Some(rec) => (
                        Ok(()),
                        TyCtxtView {
                            declarations: self.declarations.push(
                                DeclarationView {
                                    name: d.name,
                                    ty: d.ty,
                                    kind: KindView::Datatype {
                                        params: d.parameters.len() as usize,
                                        ctors: ctor_names(d.ctors, d.ctors.len()),
                                        recursor: rec_name,
                                    },
                                },
                            ) + ctor_declarations(d, rec.shapes, d.ctors.len()) + seq![
                                DeclarationView {
                                    name: rec_name,
                                    ty: rec.ty,
                                    kind: KindView::Recursor {
                                        datatype: d.name,
                                        params: d.parameters.len() as usize,
                                        ctors: rec.shapes,
                                    },
                                },
                            ],
                            local_counter: rec.next,
                            ..self
                        },
                    ),
                }
            },
        }
    }
}


/// Whether the global `n` occurs in `t`, binder types included.
pub fn term_mentions(t: &Term, n: &Name) -> (r: bool)
    ensures
        r == mentions(t@, n@),
    decreases t,
{
    match t {
        Term::Var { name } => name.is_qual() && name.same(n),
        Term::App { fun, arg, .. } => term_mentions(fun, n) || term_mentions(arg, n),
        Term::Forall { binder, term, .. } => term_mentions(&binder.ty, n) || term_mentions(term, n),
        Term::Lambda { binder, body, .. } => term_mentions(&binder.ty, n) || term_mentions(body, n),
        _ => false,
    }
}

/// The number of binders at the front of a function type.
pub fn term_arity(t: &Term) -> (r: usize)
    ensures
        r == arity(t@),
    decreases t,
{
    match t {
        Term::Forall { term, .. } => crate::term::deeper_index(term_arity(term)),
        _ => 0,
    }
}

/// The variables that name `names`.
pub fn to_terms(names: &Vec<Name>) -> (r: Vec<Term>)
    ensures
        r.deep_view() == names_to_terms(names.deep_view(), names.len() as nat),
{
    let mut out: Vec<Term> = Vec::new();
    assert(out.deep_view() =~= Seq::<TermView>::empty());
    let mut n: usize = 0;
    while n < names.len()
        invariant
            n <= names.len(),
            out.deep_view() == names_to_terms(names.deep_view(), n as nat),
        decreases names.len() - n,
    {
        let ghost cur = out.deep_view();
        out.push(names[n].to_term());
        assert(out.deep_view() =~= cur.push(names[n as int]@.to_term()));
        n += 1;
    }
    out
}

pub(crate) fn peel_type(ty: Term, next: usize, n: usize) -> (r: (Vec<Name>, Term, Option<usize>))
    ensures
        (Telescope { fields: r.0.deep_view(), rest: r.1@, next: r.2 }) == peel(ty@, next, n as nat),
{
    let mut fields: Vec<Name> = Vec::new();
    assert(fields.deep_view() =~= Seq::<NameView>::empty());
    let mut rest = ty;
    let mut supply = Some(next);
    let mut k: usize = 0;
    while k < n
        invariant
            k <= n,
            (Telescope { fields: fields.deep_view(), rest: rest@, next: supply }) == peel(
                ty@,
                next,
                k as nat,
            ),
        decreases n - k,
    {
        match (&rest, supply) {
            (Term::Forall { binder, term, .. }, Some(number)) => {
                if number == usize::MAX {
                    supply = None;
                } else {
                    let local = Name::Local {
                        span: Span::dummy(),
                        number,
                        repr: binder.name.repr(),
                        ty: Box::new((*binder.ty).clone()),
                    };
                    let opened = term.open_with(&local.to_term(), 0);
                    let ghost cur = fields.deep_view();
                    fields.push(local);
                    assert(fields.deep_view() =~= cur.push(local@));
                    rest = opened;
                    supply = Some(number + 1);
                }
            },
            _ => {},
        }
        k += 1;
    }
    (fields, rest, supply)
}

pub(crate) fn flags_of(fields: &Vec<Name>, of: &Name) -> (r: Vec<bool>)
    ensures
        r@ == recursive_flags(fields.deep_view(), of@, fields.len() as nat),
{
    let mut out: Vec<bool> = Vec::new();
    assert(out@ =~= Seq::<bool>::empty());
    let mut n: usize = 0;
    while n < fields.len()
        invariant
            n <= fields.len(),
            out@ == recursive_flags(fields.deep_view(), of@, n as nat),
        decreases fields.len() - n,
    {
        let flag = match &fields[n] {
            Name::Local { ty, .. } => match &ty.head() {
                Term::Var { name } => name.is_qual() && name.same(of),
                _ => false,
            },
            _ => false,
        };
        out.push(flag);
        n += 1;
    }
    out
}

pub(crate) fn mint_hypotheses(motive: &Term, fields: &Vec<Name>, flags: &Vec<bool>, next: usize) -> (r: (
    Vec<Name>,
    Option<usize>,
))
    ensures
        (Minted { locals: r.0.deep_view(), next: r.1 }) == hypothesis_locals(
            motive@,
            fields.deep_view(),
            flags@,
            next,
            fields.len() as nat,
        ),
{
    let mut out: Vec<Name> = Vec::new();
    assert(out.deep_view() =~= Seq::<NameView>::empty());
    let mut supply = Some(next);
    let mut n: usize = 0;
    while n < fields.len()
        invariant
            n <= fields.len(),
            (Minted { locals: out.deep_view(), next: supply }) == hypothesis_locals(
                motive@,
                fields.deep_view(),
                flags@,
                next,
                n as nat,
            ),
        decreases fields.len() - n,
    {
        match supply {
            Some(number) => {
                if n < flags.len() && flags[n] {
                    if number == usize::MAX {
                        supply = None;
                    } else {
                        let local = Name::Local {
                            span: Span::dummy(),
                            number,
                            repr: "ih".to_owned(),
                            ty: Box::new(
                                Term::App {
                                    span: Span::dummy(),
                                    fun: Box::new(motive.clone()),
                                    arg: Box::new(fields[n].to_term()),
                                },
                            ),
                        };
                        let ghost cur = out.deep_view();
                        out.push(local);
                        assert(out.deep_view() =~= cur.push(local@));
                        supply = Some(number + 1);
                    }
                }
            },
            None => {},
        }
        n += 1;
    }
    (out, supply)
}

pub(crate) fn join_names(a: &Vec<Name>, b: &Vec<Name>) -> (r: Vec<Name>)
    ensures
        r.deep_view() == a.deep_view() + b.deep_view(),
{
    let mut out = clone_names(a);
    let mut i: usize = 0;
    while i < b.len()
        invariant
            i <= b.len(),
            out.deep_view() == a.deep_view() + b.deep_view().subrange(0, i as int),
        decreases b.len() - i,
    {
        let ghost cur = out.deep_view();
        out.push(b[i].clone());
        assert(out.deep_view() =~= cur.push(b[i as int]@));
        assert(out.deep_view() =~= a.deep_view() + b.deep_view().subrange(0, i as int + 1));
        i += 1;
    }
    assert(b.deep_view().subrange(0, b.len() as int) =~= b.deep_view());
    out
}

fn make_minor_type(
    motive: &Term,
    params: &Vec<Term>,
    ctor: &Name,
    fields: &Vec<Name>,
    hyps: &Vec<Name>,
) -> (r: Term)
    ensures
        r@ == minor_type(
            motive@,
            params.deep_view(),
            ctor@,
            fields.deep_view(),
            hyps.deep_view(),
        ),
{
    let mut args = crate::typeck::sub_terms(params, 0, params.len());
    assert(params.deep_view().subrange(0, params.len() as int) =~= params.deep_view());
    crate::typeck::append_terms(&mut args, to_terms(fields));
    let result = Term::App {
        span: Span::dummy(),
        fun: Box::new(motive.clone()),
        arg: Box::new(Term::apply_all(ctor.to_term(), args)),
    };
    Term::abstract_pi(join_names(fields, hyps), result)
}

fn mint_minors(d: &Data, motive: &Term, next: usize) -> (r: (
    Vec<Name>,
    Vec<CtorShape>,
    Option<usize>,
))
    ensures
        (Minors { locals: r.0.deep_view(), shapes: r.1.deep_view(), next: r.2 }) == minor_locals(
            d@,
            motive@,
            next,
            d.ctors.len() as nat,
        ),
{
    let mut locals: Vec<Name> = Vec::new();
    let mut shapes: Vec<CtorShape> = Vec::new();
    assert(locals.deep_view() =~= Seq::<NameView>::empty());
    assert(shapes.deep_view() =~= Seq::<CtorShapeView>::empty());
    let mut supply = Some(next);
    let params = to_terms(&d.parameters);
    let mut n: usize = 0;
    while n < d.ctors.len()
        invariant
            n <= d.ctors.len(),
            params.deep_view() == names_to_terms(d@.parameters, d@.parameters.len()),
            (Minors { locals: locals.deep_view(), shapes: shapes.deep_view(), next: supply })
                == minor_locals(d@, motive@, next, n as nat),
        decreases d.ctors.len() - n,
    {
        match supply {
            None => {},
            Some(start) => {
                let ctor = &d.ctors[n].0;
                let opened = d.ctors[n].1.instantiate_all(&params);
                let arity = term_arity(&opened);
                let (fields, _, after) = peel_type(opened, start, arity);
                match after {
                    None => {
                        supply = None;
                    },
                    Some(after_fields) => {
                        let flags = flags_of(&fields, &d.name);
                        let (hyps, after_hyps) = mint_hypotheses(
                            motive,
                            &fields,
                            &flags,
                            after_fields,
                        );
                        match after_hyps {
                            None => {
                                supply = None;
                            },
                            Some(number) => {
                                if number == usize::MAX {
                                    supply = None;
                                } else {
                                    let local = Name::Local {
                                        span: Span::dummy(),
                                        number,
                                        repr: "m".to_owned(),
                                        ty: Box::new(
                                            make_minor_type(motive, &params, ctor, &fields, &hyps),
                                        ),
                                    };
                                    let shape = CtorShape { fields: fields.len(), recursive: flags };
                                    let ghost cur = locals.deep_view();
                                    let ghost held = shapes.deep_view();
                                    locals.push(local);
                                    shapes.push(shape);
                                    assert(locals.deep_view() =~= cur.push(local@));
                                    assert(shapes.deep_view() =~= held.push(shape@));
                                    supply = Some(number + 1);
                                }
                            },
                        }
                    },
                }
            },
        }
        n += 1;
    }
    (locals, shapes, supply)
}

fn build_recursor(d: &Data, next: usize) -> (r: Option<(Term, Vec<CtorShape>, usize)>)
    ensures
        match r {
            Some(rec) => recursor_of(d@, next) == Some(
                Recursor { ty: rec.0@, shapes: rec.1.deep_view(), next: rec.2 },
            ),
            None => recursor_of(d@, next) is None,
        },
{
    if next >= usize::MAX - 1 {
        return None;
    }
    let params = to_terms(&d.parameters);
    let applied = Term::apply_all(d.name.to_term(), params);
    let over = Name::Local {
        span: Span::dummy(),
        number: next,
        repr: "x".to_owned(),
        ty: Box::new(applied.clone()),
    };
    let mut single: Vec<Name> = Vec::new();
    single.push(over);
    assert(single.deep_view() =~= seq![over@]);
    let motive = Name::Local {
        span: Span::dummy(),
        number: next + 1,
        repr: "C".to_owned(),
        ty: Box::new(Term::abstract_pi(single, Term::Type)),
    };
    let (minors, shapes, after) = mint_minors(d, &motive.to_term(), next + 2);
    match after {
        None => None,
        Some(number) => {
            if number == usize::MAX {
                None
            } else {
                let major = Name::Local {
                    span: Span::dummy(),
                    number,
                    repr: "x".to_owned(),
                    ty: Box::new(applied),
                };
                let mut locals = clone_names(&d.parameters);
                let ghost cur = locals.deep_view();
                locals.push(motive.clone());
                assert(locals.deep_view() =~= cur + seq![motive@]);
                let mut locals = join_names(&locals, &minors);
                let ghost cur = locals.deep_view();
                locals.push(major.clone());
                assert(locals.deep_view() =~= cur + seq![major@]);
                let ty = Term::abstract_pi(
                    locals,
                    Term::App {
                        span: Span::dummy(),
                        fun: Box::new(motive.to_term()),
                        arg: Box::new(major.to_term()),
                    },
                );
                Some((ty, shapes, number + 1))
            }
        },
    }
}

fn is_named_before(ctors: &Vec<(Name, Term)>, name: &Name, n: usize) -> (r: bool)
    requires
        n <= ctors.len(),
    ensures
        r == named_before(ctors.deep_view(), name@, n as nat),
{
    let mut found = false;
    let mut k: usize = 0;
    while k < n
        invariant
            k <= n <= ctors.len(),
            found == named_before(ctors.deep_view(), name@, k as nat),
        decreases n - k,
    {
        if ctors[k].0.same(name) {
            found = true;
        }
        k += 1;
    }
    found
}

fn names_of_ctors(ctors: &Vec<(Name, Term)>) -> (r: Vec<Name>)
    ensures
        r.deep_view() == ctor_names(ctors.deep_view(), ctors.len() as nat),
{
    let mut out: Vec<Name> = Vec::new();
    assert(out.deep_view() =~= Seq::<NameView>::empty());
    let mut n: usize = 0;
    while n < ctors.len()
        invariant
            n <= ctors.len(),
            out.deep_view() == ctor_names(ctors.deep_view(), n as nat),
        decreases ctors.len() - n,
    {
        let ghost cur = out.deep_view();
        out.push(ctors[n].0.clone());
        assert(out.deep_view() =~= cur.push(ctors[n as int].0@));
        n += 1;
    }
    out
}

impl TyCtxt {
    fn push_declaration(&mut self, d: Declaration)
        ensures
            final(self)@ == old(self)@.declare(d@),
    {
        let ghost cur = self.declarations.deep_view();
        self.declarations.push(d);
        assert(self.declarations.deep_view() =~= cur.push(d@));
    }

    /// Declares the definition `f`. It may be unfolded during reduction
    /// unless its body mentions its own name.
    pub fn declare_def(&mut self, f: &Function)
        ensures
            final(self)@ == old(self)@.declare_def(f@),
    {
        let reduction = if term_mentions(&f.body, &f.name) {
            Reduction::Irreducible
        } else {
            Reduction::Reducible
        };
        self.push_declaration(
            Declaration {
                name: f.name.clone(),
                ty: f.ret_ty.clone(),
                kind: Kind::Definition {
                    args: clone_names(&f.args),
                    body: f.body.clone(),
                    reduction,
                },
            },
        );
    }

    /// Declares the constant `e` with its type.
    pub fn declare_extern(&mut self, e: &Extern)
        ensures
            final(self)@ == old(self)@.declare_extern(e@),
    {
        self.push_declaration(
            Declaration { name: e.name.clone(), ty: e.term.clone(), kind: Kind::Axiom },
        );
    }

    fn find_declared_ctor(&self, d: &Data, rec_name: &Name) -> (r: Option<Name>)
        ensures
            r.deep_view() == declared_ctor(self@, d@, rec_name@, d.ctors.len() as nat),
    {
        let mut found: Option<Name> = None;
        let mut n: usize = 0;
        while n < d.ctors.len()
            invariant
                n <= d.ctors.len(),
                found.deep_view() == declared_ctor(self@, d@, rec_name@, n as nat),
            decreases d.ctors.len() - n,
        {
            if found.is_none() {
                let name = &d.ctors[n].0;
                if self.find(name).is_some() || name.same(&d.name) || name.same(rec_name)
                    || is_named_before(&d.ctors, name, n) {
                    found = Some(name.clone());
                }
            }
            n += 1;
        }
        found
    }

    /// Declares the datatype `d`: its type, each of its constructors, and its
    /// recursor under the name of the datatype followed by `rec`. Fails, and
    /// declares nothing, if one of these names is declared already or would
    /// be declared twice.
    pub fn declare_datatype(&mut self, d: &Data) -> (r: Result<(), Error>)
        ensures
            (result_view(r), final(self)@) == old(self)@.declare_datatype(d@),
    {
        let rec_name = match d.name.in_scope("rec".to_owned()) {
            None => {
                return Err(Error::UnknownVariable(d.name.clone()));
            },
            Some(n) => n,
        };
        if self.find(&d.name).is_some() {
            return Err(Error::DuplicateDeclaration(d.name.clone()));
        }
        match self.find_declared_ctor(d, &rec_name) {
            Some(name) => {
                return Err(Error::DuplicateDeclaration(name));
            },
            None => {},
        }
        if self.find(&rec_name).is_some() {
            return Err(Error::DuplicateDeclaration(rec_name));
        }
        match build_recursor(d, self.local_counter) {
            None => Err(Error::OutOfNames),
            Some((rec_ty, shapes, next)) => {
                let ghost before = self@;
                self.push_declaration(
                    Declaration {
                        name: d.name.clone(),
                        ty: d.ty.clone(),
                        kind: Kind::Datatype {
                            params: d.parameters.len(),
                            ctors: names_of_ctors(&d.ctors),
                            recursor: rec_name.clone(),
                        },
                    },
                );
                let ghost first = self@.declarations;
                let mut n: usize = 0;
                while n < d.ctors.len() && n < shapes.len()
                    invariant
                        n <= d.ctors.len(),
                        n <= shapes.len(),
                        self@ == (TyCtxtView {
                            declarations: first + ctor_declarations(
                                d@,
                                shapes.deep_view(),
                                n as nat,
                            ),
                            ..before
                        }),
                    decreases d.ctors.len() - n,
                {
                    let ghost cur = self@.declarations;
                    self.push_declaration(
                        Declaration {
                            name: d.ctors[n].0.clone(),
                            ty: d.ctors[n].1.clone(),
                            kind: Kind::Constructor {
                                datatype: d.name.clone(),
                                index: n,
                                fields: shapes[n].fields,
                            },
                        },
                    );
                    assert(self@.declarations =~= first + ctor_declarations(
                        d@,
                        shapes.deep_view(),
                        n as nat + 1,
                    ));
                    n += 1;
                }
                proof {
                    lemma_minors_len(d@, before.local_counter);
                }
                let ghost cur = self@.declarations;
                let last = Declaration {
                    name: rec_name,
                    ty: rec_ty,
                    kind: Kind::Recursor {
                        datatype: d.name.clone(),
                        params: d.parameters.len(),
                        ctors: shapes,
                    },
                };
                self.push_declaration(last);
                assert(self@.declarations =~= cur + seq![last@]);
                self.local_counter = next;
                Ok(())
            },
        }
    }
}

/// The branches of the first `n` constructors are `n` in number, shapes and
/// locals alike, unless the supply of locals ended.
pub proof fn lemma_minor_locals_len(d: DataView, motive: TermView, next: usize, n: nat)
    requires
        n <= d.ctors.len(),
        minor_locals(d, motive, next, n).next is Some,
    ensures
        minor_locals(d, motive, next, n).shapes.len() == n,
        minor_locals(d, motive, next, n).locals.len() == n,
    decreases n,
{
    if n > 0 {
        lemma_minor_locals_len(d, motive, next, (n - 1) as nat);
    }
}

/// A recursor knows the shape of every constructor of its datatype.
pub proof fn lemma_minors_len(d: DataView, next: usize)
    requires
        recursor_of(d, next) is Some,
    ensures
        recursor_of(d, next)->0.shapes.len() == d.ctors.len(),
{
    let params = names_to_terms(d.parameters, d.parameters.len());
    let applied = TermView::apply_all(d.name.to_term(), params);
    let over = NameView::Local {
        span: Span::none(),
        number: next,
        repr: "x"@,
        ty: Box::new(applied),
    };
    let motive = NameView::Local {
        span: Span::none(),
        number: (next + 1) as usize,
        repr: "C"@,
        ty: Box::new(TermView::abstract_pi(seq![over], TermView::Type)),
    };
    lemma_minor_locals_len(d, motive.to_term(), (next + 2) as usize, d.ctors.len());
}

} // verus!
