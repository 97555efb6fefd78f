//! The core language: names, binders and terms, with abstraction over
//! locals, instantiation of binders, and the spine of an application.
//!
//! Bound variables are de Bruijn indices; free variables are locals, told
//! apart by their numbers. Each type has a model, which the contracts speak of.

use vstd::prelude::*;
use crate::span::Span;

verus! {

/// A literal of the core language.
#[derive(Clone, Copy, Debug, PartialEq, Eq, Structural)]
pub enum Literal {
    Unit,
    Int(i64),
}

/// A name of the core language.
///
/// Bound names are de Bruijn indices; locals are free variables told apart by
/// their number; metavariables are told apart by their number as well. Every
/// name carries the place where it occurs, which plays no part in what the
/// name is the same as.
#[derive(Debug)]
pub enum Name {
    Bound { index: usize, span: Span, repr: String },
    Local { number: usize, span: Span, repr: String, ty: Box<Term> },
    Qual { span: Span, components: Vec<String> },
    Meta { number: usize, span: Span, ty: Box<Term> },
}

/// A name together with its type, as introduced by a lambda or a
/// dependent function type.
#[derive(Debug)]
pub struct Binder {
    pub name: Name,
    pub ty: Box<Term>,
}

/// A term of the core language.
#[derive(Debug)]
pub enum Term {
    Type,
    Literal { span: Span, lit: Literal },
    Var { name: Name },
    App { span: Span, fun: Box<Term>, arg: Box<Term> },
    Forall { span: Span, binder: Binder, term: Box<Term> },
    Lambda { span: Span, binder: Binder, body: Box<Term> },
}

/// The mathematical model of a [`Name`].
pub ghost enum NameView {
    Bound { index: usize, span: Span, repr: Seq<char> },
    Local { number: usize, span: Span, repr: Seq<char>, ty: Box<TermView> },
    Qual { span: Span, components: Seq<Seq<char>> },
    Meta { number: usize, span: Span, ty: Box<TermView> },
}

/// The mathematical model of a [`Binder`].
pub ghost struct BinderView {
    pub name: NameView,
    pub ty: Box<TermView>,
}

/// The mathematical model of a [`Term`].
pub ghost enum TermView {
    Type,
    Literal { span: Span, lit: Literal },
    Var { name: NameView },
    App { span: Span, fun: Box<TermView>, arg: Box<TermView> },
    Forall { span: Span, binder: BinderView, term: Box<TermView> },
    Lambda { span: Span, binder: BinderView, body: Box<TermView> },
}

pub open spec fn name_view(n: Name) -> NameView
    decreases n,
{
    match n {
        Name::Bound { index, span, repr } => NameView::Bound { index, span, repr: repr@ },
        Name::Local { number, span, repr, ty } => NameView::Local {
            number,
            span,
            repr: repr@,
            ty: Box::new(term_view(*ty)),
        },
        Name::Qual { span, components } => NameView::Qual {
            span,
            components: components.deep_view(),
        },
        Name::Meta { number, span, ty } => NameView::Meta {
            number,
            span,
            ty: Box::new(term_view(*ty)),
        },
    }
}

pub open spec fn binder_view(b: Binder) -> BinderView {
    BinderView { name: name_view(b.name), ty: Box::new(term_view(*b.ty)) }
}

pub open spec fn term_view(t: Term) -> TermView
    decreases t,
{
    match t {
        Term::Type => TermView::Type,
        Term::Literal { span, lit } => TermView::Literal { span, lit },
        Term::Var { name } => TermView::Var { name: name_view(name) },
        Term::App { span, fun, arg } => TermView::App {
            span,
            fun: Box::new(term_view(*fun)),
            arg: Box::new(term_view(*arg)),
        },
        Term::Forall { span, binder, term } => TermView::Forall {
            span,
            binder: BinderView { name: name_view(binder.name), ty: Box::new(term_view(*binder.ty)) },
            term: Box::new(term_view(*term)),
        },
        Term::Lambda { span, binder, body } => TermView::Lambda {
            span,
            binder: BinderView { name: name_view(binder.name), ty: Box::new(term_view(*binder.ty)) },
            body: Box::new(term_view(*body)),
        },
    }
}

impl View for Name {
    type V = NameView;

    open spec fn view(&self) -> NameView {
        name_view(*self)
    }
}

impl DeepView for Name {
    type V = NameView;

    open spec fn deep_view(&self) -> NameView {
        name_view(*self)
    }
}

impl View for Binder {
    type V = BinderView;

    open spec fn view(&self) -> BinderView {
        binder_view(*self)
    }
}

impl View for Term {
    type V = TermView;

    open spec fn view(&self) -> TermView {
        term_view(*self)
    }
}

impl DeepView for Term {
    type V = TermView;

    open spec fn deep_view(&self) -> TermView {
        term_view(*self)
    }
}

/// The successor of a binder depth, held at the largest machine index.
pub open spec fn deeper(k: usize) -> usize {
    if k < usize::MAX {
        (k + 1) as usize
    } else {
        k
    }
}

impl NameView {
    /// Equality of names: bound names by index, locals and metavariables by
    /// number, qualified names by their components. Spans, printed forms and
    /// recorded types play no part.
    pub open spec fn same(self, other: NameView) -> bool {
        match (self, other) {
            (NameView::Bound { index: i, .. }, NameView::Bound { index: j, .. }) => i == j,
            (NameView::Local { number: n, .. }, NameView::Local { number: m, .. }) => n == m,
            (NameView::Qual { components: c, .. }, NameView::Qual { components: d, .. }) => c == d,
            (NameView::Meta { number: n, .. }, NameView::Meta { number: m, .. }) => n == m,
            _ => false,
        }
    }

    pub open spec fn to_term(self) -> TermView {
        TermView::Var { name: self }
    }

    /// The printed form of a bound or local name; the empty string for the others.
    pub open spec fn repr(self) -> Seq<char> {
        match self {
            NameView::Bound { repr, .. } => repr,
            NameView::Local { repr, .. } => repr,
            _ => Seq::empty(),
        }
    }

    /// The qualified name one component below this one; `None` unless the name is qualified.
    pub open spec fn in_scope(self, component: Seq<char>) -> Option<NameView> {
        match self {
            NameView::Qual { span, components } => Some(
                NameView::Qual { span, components: components.push(component) },
            ),
            _ => None,
        }
    }

    /// The name at another place.
    pub open spec fn set_span(self, sp: Span) -> NameView {
        match self {
            NameView::Bound { index, repr, .. } => NameView::Bound { index, span: sp, repr },
            NameView::Local { number, repr, ty, .. } => NameView::Local {
                number,
                span: sp,
                repr,
                ty,
            },
            NameView::Qual { components, .. } => NameView::Qual { span: sp, components },
            NameView::Meta { number, ty, .. } => NameView::Meta { number, span: sp, ty },
        }
    }

    /// The place where the name occurs.
    pub open spec fn span(self) -> Span {
        match self {
            NameView::Bound { span, .. } => span,
            NameView::Local { span, .. } => span,
            NameView::Qual { span, .. } => span,
            NameView::Meta { span, .. } => span,
        }
    }
}

impl TermView {
    /// Syntactic equality up to the names of bound variables; spans are ignored.
    pub open spec fn same(self, other: TermView) -> bool
        decreases self,
    {
        match (self, other) {
            (TermView::Type, TermView::Type) => true,
            (TermView::Literal { lit: l, .. }, TermView::Literal { lit: m, .. }) => l == m,
            (TermView::Var { name: n }, TermView::Var { name: m }) => n.same(m),
            (TermView::App { fun: f, arg: a, .. }, TermView::App { fun: g, arg: b, .. }) => f.same(
                *g,
            ) && a.same(*b),
            (
                TermView::Forall { binder: b, term: t, .. },
                TermView::Forall { binder: c, term: u, .. },
            ) => b.ty.same(*c.ty) && t.same(*u),
            (
                TermView::Lambda { binder: b, body: t, .. },
                TermView::Lambda { binder: c, body: u, .. },
            ) => b.ty.same(*c.ty) && t.same(*u),
            _ => false,
        }
    }

    /// Replaces the local numbered `x` by the bound index `k`, which grows
    /// by one under each binder.
    pub open spec fn close(self, x: usize, k: usize) -> TermView
        decreases self,
    {
        match self {
            TermView::Var { name: NameView::Local { number, span, repr, .. } } => if number == x {
                TermView::Var { name: NameView::Bound { index: k, span, repr } }
            } else {
                self
            },
            TermView::App { span, fun, arg } => TermView::App {
                span,
                fun: Box::new(fun.close(x, k)),
                arg: Box::new(arg.close(x, k)),
            },
            TermView::Forall { span, binder, term } => TermView::Forall {
                span,
                binder: BinderView { name: binder.name, ty: Box::new(binder.ty.close(x, k)) },
                term: Box::new(term.close(x, deeper(k))),
            },
            TermView::Lambda { span, binder, body } => TermView::Lambda {
                span,
                binder: BinderView { name: binder.name, ty: Box::new(binder.ty.close(x, k)) },
                body: Box::new(body.close(x, deeper(k))),
            },
            _ => self,
        }
    }

    /// Replaces the bound index `k`, which grows by one under each binder, by `a`.
    pub open spec fn open_with(self, a: TermView, k: usize) -> TermView
        decreases self,
    {
        match self {
            TermView::Var { name: NameView::Bound { index, .. } } => if index == k {
                a
            } else {
                self
            },
            TermView::App { span, fun, arg } => TermView::App {
                span,
                fun: Box::new(fun.open_with(a, k)),
                arg: Box::new(arg.open_with(a, k)),
            },
            TermView::Forall { span, binder, term } => TermView::Forall {
                span,
                binder: BinderView { name: binder.name, ty: Box::new(binder.ty.open_with(a, k)) },
                term: Box::new(term.open_with(a, deeper(k))),
            },
            TermView::Lambda { span, binder, body } => TermView::Lambda {
                span,
                binder: BinderView { name: binder.name, ty: Box::new(binder.ty.open_with(a, k)) },
                body: Box::new(body.open_with(a, deeper(k))),
            },
            _ => self,
        }
    }

    /// Removes the outermost binder of a lambda or a dependent function type
    /// and puts `a` in place of its variable; any other term is left as it is.
    pub open spec fn instantiate(self, a: TermView) -> TermView {
        match self {
            TermView::Forall { term, .. } => term.open_with(a, 0),
            TermView::Lambda { body, .. } => body.open_with(a, 0),
            _ => self,
        }
    }

    /// Instantiates one binder after another, the outermost with the first argument.
    pub open spec fn instantiate_all(self, args: Seq<TermView>) -> TermView
        decreases args.len(),
    {
        if args.len() == 0 {
            self
        } else {
            self.instantiate(args[0]).instantiate_all(args.drop_first())
        }
    }

    /// Replaces every occurrence of the metavariable numbered `m` by `s`.
    pub open spec fn instantiate_meta(self, m: usize, s: TermView) -> TermView
        decreases self,
    {
        match self {
            TermView::Var { name: NameView::Meta { number, .. } } => if number == m {
                s
            } else {
                self
            },
            TermView::App { span, fun, arg } => TermView::App {
                span,
                fun: Box::new(fun.instantiate_meta(m, s)),
                arg: Box::new(arg.instantiate_meta(m, s)),
            },
            TermView::Forall { span, binder, term } => TermView::Forall {
                span,
                binder: BinderView {
                    name: binder.name,
                    ty: Box::new(binder.ty.instantiate_meta(m, s)),
                },
                term: Box::new(term.instantiate_meta(m, s)),
            },
            TermView::Lambda { span, binder, body } => TermView::Lambda {
                span,
                binder: BinderView {
                    name: binder.name,
                    ty: Box::new(binder.ty.instantiate_meta(m, s)),
                },
                body: Box::new(body.instantiate_meta(m, s)),
            },
            _ => self,
        }
    }

    /// One layer of abstraction: the binder of `l` around `body`, in which `l`
    /// has become the bound index 0. A name that is no local binds nothing.
    pub open spec fn bind(pi: bool, l: NameView, body: TermView) -> TermView {
        match l {
            NameView::Local { number, ty, .. } => {
                let binder = BinderView { name: l, ty };
                if pi {
                    TermView::Forall {
                        span: Span::none(),
                        binder,
                        term: Box::new(body.close(number, 0)),
                    }
                } else {
                    TermView::Lambda {
                        span: Span::none(),
                        binder,
                        body: Box::new(body.close(number, 0)),
                    }
                }
            },
            _ => body,
        }
    }

    /// Abstracts the locals `ls` out of `t`, the first of them outermost: as
    /// dependent function types if `pi` holds, as lambdas otherwise.
    pub open spec fn abstract_over(pi: bool, ls: Seq<NameView>, t: TermView) -> TermView
        decreases ls.len(),
    {
        if ls.len() == 0 {
            t
        } else {
            TermView::bind(pi, ls[0], TermView::abstract_over(pi, ls.drop_first(), t))
        }
    }

    pub open spec fn abstract_pi(ls: Seq<NameView>, t: TermView) -> TermView {
        TermView::abstract_over(true, ls, t)
    }

    pub open spec fn abstract_lambda(ls: Seq<NameView>, t: TermView) -> TermView {
        TermView::abstract_over(false, ls, t)
    }

    /// Left-associative application of `f` to `args`.
    pub open spec fn apply_all(f: TermView, args: Seq<TermView>) -> TermView
        decreases args.len(),
    {
        if args.len() == 0 {
            f
        } else {
            TermView::apply_all(
                TermView::App { span: Span::none(), fun: Box::new(f), arg: Box::new(args[0]) },
                args.drop_first(),
            )
        }
    }

    /// The leftmost term of an application spine.
    pub open spec fn head(self) -> TermView
        decreases self,
    {
        match self {
            TermView::App { fun, .. } => fun.head(),
            _ => self,
        }
    }

    /// The arguments of an application spine, the first applied first.
    pub open spec fn args(self) -> Seq<TermView>
        decreases self,
    {
        match self {
            TermView::App { fun, arg, .. } => fun.args().push(*arg),
            _ => Seq::empty(),
        }
    }

    pub open spec fn is_forall(self) -> bool {
        self is Forall
    }

    pub open spec fn is_lambda(self) -> bool {
        self is Lambda
    }

    pub open spec fn head_is_local(self) -> bool {
        self.head() matches TermView::Var { name } && name is Local
    }

    pub open spec fn head_is_global(self) -> bool {
        self.head() matches TermView::Var { name } && name is Qual
    }

    pub open spec fn head_is_meta(self) -> bool {
        self.head() matches TermView::Var { name } && name is Meta
    }

    /// The metavariable on which reduction of this term waits: the head of its spine, if that is one.
    pub open spec fn is_stuck(self) -> Option<NameView> {
        match self.head() {
            TermView::Var { name } => if name is Meta {
                Some(name)
            } else {
                None
            },
            _ => None,
        }
    }

    /// The place in the source that the term came from: for a variable, the
    /// place of its name; `Type` has none.
    pub open spec fn span(self) -> Span {
        match self {
            TermView::Literal { span, .. } => span,
            TermView::App { span, .. } => span,
            TermView::Forall { span, .. } => span,
            TermView::Lambda { span, .. } => span,
            TermView::Var { name } => name.span(),
            TermView::Type => Span::none(),
        }
    }

    /// Whether a metavariable occurs in the term, binder types included.
    pub open spec fn has_meta(self) -> bool
        decreases self,
    {
        match self {
            TermView::Var { name } => name is Meta,
            TermView::App { fun, arg, .. } => fun.has_meta() || arg.has_meta(),
            TermView::Forall { binder, term, .. } => binder.ty.has_meta() || term.has_meta(),
            TermView::Lambda { binder, body, .. } => binder.ty.has_meta() || body.has_meta(),
            _ => false,
        }
    }
}


/// Copies a list of strings.
pub fn clone_strings(v: &Vec<String>) -> (r: Vec<String>)
    ensures
        r.deep_view() == v.deep_view(),
{
    let mut out: Vec<String> = Vec::new();
    let mut i: usize = 0;
    while i < v.len()
        invariant
            i <= v.len(),
            out.len() == i,
            forall|k: int| 0 <= k < i ==> out[k]@ == v[k]@,
        decreases v.len() - i,
    {
        out.push(v[i].clone());
        i += 1;
    }
    assert(out.deep_view() =~= v.deep_view());
    out
}

/// Whether two lists of strings hold the same strings in the same order.
pub fn strings_equal(a: &Vec<String>, b: &Vec<String>) -> (r: bool)
    ensures
        r == (a.deep_view() == b.deep_view()),
{
    if a.len() != b.len() {
        assert(a.deep_view().len() != b.deep_view().len());
        return false;
    }
    let mut i: usize = 0;
    while i < a.len()
        invariant
            i <= a.len(),
            a.len() == b.len(),
            forall|k: int| 0 <= k < i ==> a[k]@ == b[k]@,
        decreases a.len() - i,
    {
        if a[i] != b[i] {
            assert(a.deep_view()[i as int] != b.deep_view()[i as int]);
            return false;
        }
        i += 1;
    }
    assert(a.deep_view() =~= b.deep_view());
    true
}

impl Clone for Name {
    fn clone(&self) -> (r: Name)
        ensures
            r@ == self@,
        decreases self,
    {
        match self {
            Name::Bound { index, span, repr } => Name::Bound {
                index: *index,
                span: *span,
                repr: repr.clone(),
            },
            Name::Local { number, span, repr, ty } => Name::Local {
                number: *number,
                span: *span,
                repr: repr.clone(),
                ty: Box::new((**ty).clone()),
            },
            Name::Qual { span, components } => Name::Qual {
                span: *span,
                components: clone_strings(components),
            },
            Name::Meta { number, span, ty } => Name::Meta {
                number: *number,
                span: *span,
                ty: Box::new((**ty).clone()),
            },
        }
    }
}

impl Clone for Binder {
    fn clone(&self) -> (r: Binder)
        ensures
            r@ == self@,
        decreases self,
    {
        Binder { name: self.name.clone(), ty: Box::new((*self.ty).clone()) }
    }
}

impl Clone for Term {
    fn clone(&self) -> (r: Term)
        ensures
            r@ == self@,
        decreases self,
    {
        match self {
            Term::Type => Term::Type,
            Term::Literal { span, lit } => Term::Literal { span: *span, lit: *lit },
            Term::Var { name } => Term::Var { name: name.clone() },
            Term::App { span, fun, arg } => Term::App {
                span: *span,
                fun: Box::new((**fun).clone()),
                arg: Box::new((**arg).clone()),
            },
            Term::Forall { span, binder, term } => Term::Forall {
                span: *span,
                binder: binder.clone(),
                term: Box::new((**term).clone()),
            },
            Term::Lambda { span, binder, body } => Term::Lambda {
                span: *span,
                binder: binder.clone(),
                body: Box::new((**body).clone()),
            },
        }
    }
}

/// Copies a list of terms.
pub fn clone_terms(v: &Vec<Term>) -> (r: Vec<Term>)
    ensures
        r.deep_view() == v.deep_view(),
{
    let mut out: Vec<Term> = Vec::new();
    let mut i: usize = 0;
    while i < v.len()
        invariant
            i <= v.len(),
            out.len() == i,
            forall|k: int| 0 <= k < i ==> out[k]@ == v[k]@,
        decreases v.len() - i,
    {
        out.push(v[i].clone());
        i += 1;
    }
    assert(out.deep_view() =~= v.deep_view());
    out
}

/// Copies a list of names.
pub fn clone_names(v: &Vec<Name>) -> (r: Vec<Name>)
    ensures
        r.deep_view() == v.deep_view(),
{
    let mut out: Vec<Name> = Vec::new();
    let mut i: usize = 0;
    while i < v.len()
        invariant
            i <= v.len(),
            out.len() == i,
            forall|k: int| 0 <= k < i ==> out[k]@ == v[k]@,
        decreases v.len() - i,
    {
        out.push(v[i].clone());
        i += 1;
    }
    assert(out.deep_view() =~= v.deep_view());
    out
}

impl Name {
    /// A qualified name of one component.
    pub fn from_str(s: &str) -> (r: Name)
        ensures
            r@ == (NameView::Qual { span: Span::none(), components: seq![s@] }),
    {
        let mut components: Vec<String> = Vec::new();
        components.push(s.to_owned());
        assert(components.deep_view() =~= seq![s@]);
        Name::Qual { span: Span::dummy(), components }
    }

    pub fn is_meta(&self) -> (r: bool)
        ensures
            r == (self@ is Meta),
    {
        match self {
            Name::Meta { .. } => true,
            _ => false,
        }
    }

    pub fn is_local(&self) -> (r: bool)
        ensures
            r == (self@ is Local),
    {
        match self {
            Name::Local { .. } => true,
            _ => false,
        }
    }

    pub fn is_qual(&self) -> (r: bool)
        ensures
            r == (self@ is Qual),
    {
        match self {
            Name::Qual { .. } => true,
            _ => false,
        }
    }

    /// The printed form of a bound or local name; the empty string for the others.
    pub fn repr(&self) -> (r: String)
        ensures
            r@ == self@.repr(),
    {
        match self {
            Name::Bound { repr, .. } => repr.clone(),
            Name::Local { repr, .. } => repr.clone(),
            _ => String::new(),
        }
    }

    pub fn to_term(&self) -> (r: Term)
        ensures
            r@ == self@.to_term(),
    {
        Term::Var { name: self.clone() }
    }

    /// The qualified name one component below this one; `None` unless the name is qualified.
    pub fn in_scope(&self, component: String) -> (r: Option<Name>)
        ensures
            r.deep_view() == self@.in_scope(component@),
    {
        match self {
            Name::Qual { span, components } => {
                let mut cs = clone_strings(components);
                cs.push(component);
                assert(cs.deep_view() =~= components.deep_view().push(component@));
                Some(Name::Qual { span: *span, components: cs })
            },
            _ => None,
        }
    }

    /// Records where the name occurs.
    pub fn set_span(&mut self, sp: Span)
        ensures
            final(self)@ == old(self)@.set_span(sp),
    {
        match self {
            Name::Bound { span, .. } => {
                *span = sp;
            },
            Name::Local { span, .. } => {
                *span = sp;
            },
            Name::Qual { span, .. } => {
                *span = sp;
            },
            Name::Meta { span, .. } => {
                *span = sp;
            },
        }
    }

    /// The place where the name occurs.
    pub fn get_span(&self) -> (r: Span)
        ensures
            r == self@.span(),
    {
        match self {
            Name::Bound { span, .. } => *span,
            Name::Local { span, .. } => *span,
            Name::Qual { span, .. } => *span,
            Name::Meta { span, .. } => *span,
        }
    }

    pub fn same(&self, other: &Name) -> (r: bool)
        ensures
            r == self@.same(other@),
    {
        match (self, other) {
            (Name::Bound { index: i, .. }, Name::Bound { index: j, .. }) => *i == *j,
            (Name::Local { number: n, .. }, Name::Local { number: m, .. }) => *n == *m,
            (Name::Qual { components: c, .. }, Name::Qual { components: d, .. }) => strings_equal(
                c,
                d,
            ),
            (Name::Meta { number: n, .. }, Name::Meta { number: m, .. }) => *n == *m,
            _ => false,
        }
    }
}

impl PartialEq for Name {
    fn eq(&self, other: &Name) -> (r: bool) {
        self.same(other)
    }
}

impl vstd::std_specs::cmp::PartialEqSpecImpl for Name {
    open spec fn obeys_eq_spec() -> bool {
        true
    }

    open spec fn eq_spec(&self, other: &Name) -> bool {
        self@.same(other@)
    }
}


impl Binder {
    pub fn new(name: Name, ty: Term) -> (r: Binder)
        ensures
            r@ == (BinderView { name: name@, ty: Box::new(ty@) }),
    {
        Binder { name, ty: Box::new(ty) }
    }
}

/// The successor of a binder depth, held at the largest machine index.
pub fn deeper_index(k: usize) -> (r: usize)
    ensures
        r == deeper(k),
{
    if k < usize::MAX {
        k + 1
    } else {
        k
    }
}

impl Term {
    pub fn same(&self, other: &Term) -> (r: bool)
        ensures
            r == self@.same(other@),
        decreases self,
    {
        match (self, other) {
            (Term::Type, Term::Type) => true,
            (Term::Literal { lit: l, .. }, Term::Literal { lit: m, .. }) => *l == *m,
            (Term::Var { name: n }, Term::Var { name: m }) => n.same(m),
            (Term::App { fun: f, arg: a, .. }, Term::App { fun: g, arg: b, .. }) => f.same(g)
                && a.same(b),
            (Term::Forall { binder: b, term: t, .. }, Term::Forall { binder: c, term: u, .. }) => {
                b.ty.same(&c.ty) && t.same(u)
            },
            (Term::Lambda { binder: b, body: t, .. }, Term::Lambda { binder: c, body: u, .. }) => {
                b.ty.same(&c.ty) && t.same(u)
            },
            _ => false,
        }
    }

    /// Replaces the local numbered `x` by the bound index `k`.
    pub fn close(&self, x: usize, k: usize) -> (r: Term)
        ensures
            r@ == self@.close(x, k),
        decreases self,
    {
        proof {
            reveal_with_fuel(term_view, 2);
        }
        match self {
            Term::Var { name: Name::Local { number, span, repr, .. } } => {
                if *number == x {
                    Term::Var { name: Name::Bound { index: k, span: *span, repr: repr.clone() } }
                } else {
                    self.clone()
                }
            },
            Term::App { span, fun, arg } => Term::App {
                span: *span,
                fun: Box::new(fun.close(x, k)),
                arg: Box::new(arg.close(x, k)),
            },
            Term::Forall { span, binder, term } => Term::Forall {
                span: *span,
                binder: Binder { name: binder.name.clone(), ty: Box::new(binder.ty.close(x, k)) },
                term: Box::new(term.close(x, deeper_index(k))),
            },
            Term::Lambda { span, binder, body } => Term::Lambda {
                span: *span,
                binder: Binder { name: binder.name.clone(), ty: Box::new(binder.ty.close(x, k)) },
                body: Box::new(body.close(x, deeper_index(k))),
            },
            _ => self.clone(),
        }
    }

    /// Replaces the bound index `k` by `a`.
    pub fn open_with(&self, a: &Term, k: usize) -> (r: Term)
        ensures
            r@ == self@.open_with(a@, k),
        decreases self,
    {
        proof {
            reveal_with_fuel(term_view, 2);
        }
        match self {
            Term::Var { name: Name::Bound { index, .. } } => {
                if *index == k {
                    a.clone()
                } else {
                    self.clone()
                }
            },
            Term::App { span, fun, arg } => Term::App {
                span: *span,
                fun: Box::new(fun.open_with(a, k)),
                arg: Box::new(arg.open_with(a, k)),
            },
            Term::Forall { span, binder, term } => Term::Forall {
                span: *span,
                binder: Binder {
                    name: binder.name.clone(),
                    ty: Box::new(binder.ty.open_with(a, k)),
                },
                term: Box::new(term.open_with(a, deeper_index(k))),
            },
            Term::Lambda { span, binder, body } => Term::Lambda {
                span: *span,
                binder: Binder {
                    name: binder.name.clone(),
                    ty: Box::new(binder.ty.open_with(a, k)),
                },
                body: Box::new(body.open_with(a, deeper_index(k))),
            },
            _ => self.clone(),
        }
    }

    /// Removes the outermost binder of a lambda or a dependent function type
    /// and puts `a` in place of its variable; any other term is copied.
    pub fn instantiate(&self, a: &Term) -> (r: Term)
        ensures
            r@ == self@.instantiate(a@),
    {
        match self {
            Term::Forall { term, .. } => term.open_with(a, 0),
            Term::Lambda { body, .. } => body.open_with(a, 0),
            _ => self.clone(),
        }
    }

    /// Instantiates one binder after another, the outermost with the first argument.
    pub fn instantiate_all(&self, args: &Vec<Term>) -> (r: Term)
        ensures
            r@ == self@.instantiate_all(args.deep_view()),
    {
        let mut result = self.clone();
        let mut i: usize = 0;
        assert(args.deep_view().skip(0) =~= args.deep_view());
        while i < args.len()
            invariant
                i <= args.len(),
                self@.instantiate_all(args.deep_view()) == result@.instantiate_all(
                    args.deep_view().skip(i as int),
                ),
            decreases args.len() - i,
        {
            assert(args.deep_view().skip(i as int).drop_first() =~= args.deep_view().skip(
                i as int + 1,
            ));
            result = result.instantiate(&args[i]);
            i += 1;
        }
        result
    }

    /// Replaces every occurrence of the metavariable `meta` by `s`; a name
    /// that is no metavariable replaces nothing.
    pub fn instantiate_meta(&self, meta: &Name, s: &Term) -> (r: Term)
        ensures
            r@ == (match meta@ {
                NameView::Meta { number, .. } => self@.instantiate_meta(number, s@),
                _ => self@,
            }),
    {
        match meta {
            Name::Meta { number, .. } => self.replace_meta(*number, s),
            _ => self.clone(),
        }
    }

    /// Replaces every occurrence of the metavariable numbered `m` by `s`.
    pub fn replace_meta(&self, m: usize, s: &Term) -> (r: Term)
        ensures
            r@ == self@.instantiate_meta(m, s@),
        decreases self,
    {
        proof {
            reveal_with_fuel(term_view, 2);
        }
        match self {
            Term::Var { name: Name::Meta { number, .. } } => {
                if *number == m {
                    s.clone()
                } else {
                    self.clone()
                }
            },
            Term::App { span, fun, arg } => Term::App {
                span: *span,
                fun: Box::new(fun.replace_meta(m, s)),
                arg: Box::new(arg.replace_meta(m, s)),
            },
            Term::Forall { span, binder, term } => Term::Forall {
                span: *span,
                binder: Binder {
                    name: binder.name.clone(),
                    ty: Box::new(binder.ty.replace_meta(m, s)),
                },
                term: Box::new(term.replace_meta(m, s)),
            },
            Term::Lambda { span, binder, body } => Term::Lambda {
                span: *span,
                binder: Binder {
                    name: binder.name.clone(),
                    ty: Box::new(binder.ty.replace_meta(m, s)),
                },
                body: Box::new(body.replace_meta(m, s)),
            },
            _ => self.clone(),
        }
    }

    /// One layer of abstraction: the binder of `l` around `body`.
    fn bind(pi: bool, l: &Name, body: Term) -> (r: Term)
        ensures
            r@ == TermView::bind(pi, l@, body@),
    {
        match l {
            Name::Local { number, ty, .. } => {
                let binder = Binder { name: l.clone(), ty: Box::new((**ty).clone()) };
                let inner = body.close(*number, 0);
                if pi {
                    Term::Forall { span: Span::dummy(), binder, term: Box::new(inner) }
                } else {
                    Term::Lambda { span: Span::dummy(), binder, body: Box::new(inner) }
                }
            },
            _ => body,
        }
    }

    fn abstract_from(pi: bool, ls: &Vec<Name>, i: usize, t: Term) -> (r: Term)
        requires
            i <= ls.len(),
        ensures
            r@ == TermView::abstract_over(pi, ls.deep_view().skip(i as int), t@),
        decreases ls.len() - i,
    {
        if i >= ls.len() {
            t
        } else {
            assert(ls.deep_view().skip(i as int).drop_first() =~= ls.deep_view().skip(
                i as int + 1,
            ));
            let rest = Term::abstract_from(pi, ls, i + 1, t);
            Term::bind(pi, &ls[i], rest)
        }
    }

    /// Abstracts the locals out of `t` as nested dependent function types,
    /// the first local outermost.
    pub fn abstract_pi(locals: Vec<Name>, t: Term) -> (r: Term)
        ensures
            r@ == TermView::abstract_pi(locals.deep_view(), t@),
    {
        assert(locals.deep_view().skip(0) =~= locals.deep_view());
        Term::abstract_from(true, &locals, 0, t)
    }

    /// Abstracts the locals out of `t` as nested lambdas, the first local outermost.
    pub fn abstract_lambda(locals: Vec<Name>, t: Term) -> (r: Term)
        ensures
            r@ == TermView::abstract_lambda(locals.deep_view(), t@),
    {
        assert(locals.deep_view().skip(0) =~= locals.deep_view());
        Term::abstract_from(false, &locals, 0, t)
    }

    /// Left-associative application of `f` to `args`.
    pub fn apply_all(f: Term, args: Vec<Term>) -> (r: Term)
        ensures
            r@ == TermView::apply_all(f@, args.deep_view()),
    {
        let mut result = f;
        let mut i: usize = 0;
        assert(args.deep_view().skip(0) =~= args.deep_view());
        while i < args.len()
            invariant
                i <= args.len(),
                TermView::apply_all(f@, args.deep_view()) == TermView::apply_all(
                    result@,
                    args.deep_view().skip(i as int),
                ),
            decreases args.len() - i,
        {
            assert(args.deep_view().skip(i as int).drop_first() =~= args.deep_view().skip(
                i as int + 1,
            ));
            result =
            Term::App { span: Span::dummy(), fun: Box::new(result), arg: Box::new(args[i].clone()) };
            i += 1;
        }
        result
    }

    /// The leftmost term of an application spine.
    pub fn head(&self) -> (r: Term)
        ensures
            r@ == self@.head(),
        decreases self,
    {
        match self {
            Term::App { fun, .. } => fun.head(),
            _ => self.clone(),
        }
    }

    /// The arguments of an application spine, the first applied first.
    pub fn args(&self) -> (r: Vec<Term>)
        ensures
            r.deep_view() == self@.args(),
        decreases self,
    {
        match self {
            Term::App { fun, arg, .. } => {
                let mut v = fun.args();
                let ghost before = v.deep_view();
                v.push((**arg).clone());
                assert(v.deep_view() =~= before.push(arg@));
                v
            },
            _ => {
                let v: Vec<Term> = Vec::new();
                assert(v.deep_view() =~= Seq::<TermView>::empty());
                v
            },
        }
    }

    /// The head of an application spine together with its arguments.
    pub fn uncurry(&self) -> (r: (Term, Vec<Term>))
        ensures
            r.0@ == self@.head(),
            r.1.deep_view() == self@.args(),
    {
        (self.head(), self.args())
    }

    pub fn is_forall(&self) -> (r: bool)
        ensures
            r == self@.is_forall(),
    {
        match self {
            Term::Forall { .. } => true,
            _ => false,
        }
    }

    pub fn is_lambda(&self) -> (r: bool)
        ensures
            r == self@.is_lambda(),
    {
        match self {
            Term::Lambda { .. } => true,
            _ => false,
        }
    }

    pub fn head_is_local(&self) -> (r: bool)
        ensures
            r == self@.head_is_local(),
        decreases self,
    {
        match self {
            Term::App { fun, .. } => fun.head_is_local(),
            Term::Var { name } => name.is_local(),
            _ => false,
        }
    }

    pub fn head_is_global(&self) -> (r: bool)
        ensures
            r == self@.head_is_global(),
        decreases self,
    {
        match self {
            Term::App { fun, .. } => fun.head_is_global(),
            Term::Var { name } => name.is_qual(),
            _ => false,
        }
    }

    pub fn head_is_meta(&self) -> (r: bool)
        ensures
            r == self@.head_is_meta(),
        decreases self,
    {
        match self {
            Term::App { fun, .. } => fun.head_is_meta(),
            Term::Var { name } => name.is_meta(),
            _ => false,
        }
    }

    /// The metavariable on which reduction of this term waits, if there is one.
    pub fn is_stuck(&self) -> (r: Option<Name>)
        ensures
            r.deep_view() == self@.is_stuck(),
        decreases self,
    {
        match self {
            Term::App { fun, .. } => fun.is_stuck(),
            Term::Var { name } => {
                if name.is_meta() {
                    Some(name.clone())
                } else {
                    None
                }
            },
            _ => None,
        }
    }

    /// Whether a metavariable occurs in the term, binder types included.
    pub fn has_meta(&self) -> (r: bool)
        ensures
            r == self@.has_meta(),
        decreases self,
    {
        match self {
            Term::Var { name } => name.is_meta(),
            Term::App { fun, arg, .. } => fun.has_meta() || arg.has_meta(),
            Term::Forall { binder, term, .. } => binder.ty.has_meta() || term.has_meta(),
            Term::Lambda { binder, body, .. } => binder.ty.has_meta() || body.has_meta(),
            _ => false,
        }
    }

    /// The place in the source that the term came from: for a variable, the
    /// place of its name; `Type` has none.
    pub fn get_span(&self) -> (r: Span)
        ensures
            r == self@.span(),
    {
        proof {
            reveal_with_fuel(term_view, 2);
        }
        match self {
            Term::Literal { span, .. } => *span,
            Term::App { span, .. } => *span,
            Term::Forall { span, .. } => *span,
            Term::Lambda { span, .. } => *span,
            Term::Var { name } => name.get_span(),
            Term::Type => Span::dummy(),
        }
    }
}

impl PartialEq for Term {
    fn eq(&self, other: &Term) -> (r: bool) {
        self.same(other)
    }
}

impl vstd::std_specs::cmp::PartialEqSpecImpl for Term {
    open spec fn obeys_eq_spec() -> bool {
        true
    }

    open spec fn eq_spec(&self, other: &Term) -> bool {
        self@.same(other@)
    }
}


impl TermView {
    /// The number of nodes of the term, binder types included; the types
    /// inside names are not counted.
    pub open spec fn size(self) -> nat
        decreases self,
    {
        match self {
            TermView::App { fun, arg, .. } => 1 + fun.size() + arg.size(),
            TermView::Forall { binder, term, .. } => 1 + binder.ty.size() + term.size(),
            TermView::Lambda { binder, body, .. } => 1 + binder.ty.size() + body.size(),
            _ => 1,
        }
    }
}

/// The sizes of the terms of a list, added up.
pub open spec fn terms_size(ts: Seq<TermView>) -> nat
    decreases ts.len(),
{
    if ts.len() == 0 {
        0
    } else {
        terms_size(ts.drop_last()) + ts.last().size()
    }
}

/// Every term has a node.
pub proof fn lemma_size_positive(t: TermView)
    ensures
        t.size() >= 1,
{
}

/// The size of a list with one more term is the size of the list and of the term.
pub proof fn lemma_terms_size_push(ts: Seq<TermView>, a: TermView)
    ensures
        terms_size(ts.push(a)) == terms_size(ts) + a.size(),
{
    assert(ts.push(a).drop_last() =~= ts);
}

/// The arguments of a spine are smaller than the spine.
pub proof fn lemma_args_size(t: TermView)
    ensures
        terms_size(t.args()) < t.size(),
    decreases t,
{
    match t {
        TermView::App { fun, arg, .. } => {
            lemma_args_size(*fun);
            lemma_terms_size_push(fun.args(), *arg);
        },
        _ => {},
    }
}

/// A term of a list is no larger than the list.
pub proof fn lemma_term_in_size(ts: Seq<TermView>, i: int)
    requires
        0 <= i < ts.len(),
    ensures
        ts[i].size() <= terms_size(ts),
    decreases ts.len(),
{
    if i < ts.len() - 1 {
        lemma_term_in_size(ts.drop_last(), i);
    }
}

/// Opening a bound index with a variable leaves the size of a term as it was.
pub proof fn lemma_open_size(t: TermView, a: TermView, k: usize)
    requires
        a.size() == 1,
    ensures
        t.open_with(a, k).size() == t.size(),
    decreases t,
{
    match t {
        TermView::App { fun, arg, .. } => {
            lemma_open_size(*fun, a, k);
            lemma_open_size(*arg, a, k);
        },
        TermView::Forall { binder, term, .. } => {
            lemma_open_size(*binder.ty, a, k);
            lemma_open_size(*term, a, deeper(k));
        },
        TermView::Lambda { binder, body, .. } => {
            lemma_open_size(*binder.ty, a, k);
            lemma_open_size(*body, a, deeper(k));
        },
        _ => {},
    }
}

} // verus!
