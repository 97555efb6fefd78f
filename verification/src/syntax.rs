//! The surface language as the parser hands it over.

use vstd::prelude::*;
use crate::span::Span;

verus! {

/// How a name is written in the source.
#[derive(Debug)]
pub enum NameKind {
    Qualified(Vec<String>),
    Unqualified(String),
    Placeholder,
}

/// A name of the surface language with the place where it stands.
#[derive(Debug)]
pub struct Name {
    pub span: Span,
    pub repr: NameKind,
}

/// A literal of the surface language.
#[derive(Clone, Copy, Debug, PartialEq, Eq, Structural)]
pub enum Literal {
    Unit,
    Int(i64),
}

/// A name with the type that the source gives it.
#[derive(Debug)]
pub struct Binder {
    pub name: Name,
    pub ty: Term,
}

/// The left side of a case of a `match`.
#[derive(Debug)]
pub enum Pattern {
    /// A name: a constructor without fields, or a variable.
    Name(Name),
    /// A constructor applied to patterns for its fields.
    Constructor(Name, Vec<Pattern>),
    Placeholder,
}

/// One case of a `match`.
#[derive(Debug)]
pub struct Case {
    pub span: Span,
    pub pattern: Pattern,
    pub rhs: Term,
}

/// A term of the surface language.
#[derive(Debug)]
pub enum Term {
    Literal { span: Span, lit: Literal },
    Var { name: Name },
    Match { span: Span, scrutinee: Box<Term>, cases: Vec<Case> },
    App { span: Span, fun: Box<Term>, arg: Box<Term> },
    Forall { span: Span, binders: Vec<Binder>, term: Box<Term> },
    Lambda { span: Span, args: Vec<Binder>, body: Box<Term> },
    /// Binds each of `values` to the binder at the same place, then gives `body`.
    Let { span: Span, binders: Vec<Binder>, values: Vec<Term>, body: Box<Term> },
    Type,
}

/// An inductive datatype as the source declares it.
#[derive(Debug)]
pub struct Inductive {
    pub span: Span,
    pub name: Name,
    pub parameters: Vec<Binder>,
    pub ty: Term,
    pub ctors: Vec<(Name, Term)>,
}

/// A definition as the source declares it.
#[derive(Debug)]
pub struct Def {
    pub span: Span,
    pub name: Name,
    pub args: Vec<Binder>,
    pub ty: Term,
    pub body: Term,
}

/// A constant that the source declares with its type only.
#[derive(Debug)]
pub struct Extern {
    pub span: Span,
    pub name: Name,
    pub term: Term,
}

#[derive(Debug)]
pub enum Item {
    Inductive(Inductive),
    Def(Def),
    Extern(Extern),
    Import(Name),
    Comment(String),
}

/// The items of one source file.
#[derive(Debug)]
pub struct Module {
    pub span: Span,
    pub name: Name,
    pub items: Vec<Item>,
}

pub ghost enum NameKindView {
    Qualified(Seq<Seq<char>>),
    Unqualified(Seq<char>),
    Placeholder,
}

pub ghost struct NameView {
    pub span: Span,
    pub repr: NameKindView,
}

impl View for NameKind {
    type V = NameKindView;

    open spec fn view(&self) -> NameKindView {
        match *self {
            NameKind::Qualified(components) => NameKindView::Qualified(components.deep_view()),
            NameKind::Unqualified(s) => NameKindView::Unqualified(s@),
            NameKind::Placeholder => NameKindView::Placeholder,
        }
    }
}

impl View for Name {
    type V = NameView;

    open spec fn view(&self) -> NameView {
        NameView { span: self.span, repr: self.repr@ }
    }
}

impl DeepView for Name {
    type V = NameView;

    open spec fn deep_view(&self) -> NameView {
        self@
    }
}

impl NameView {
    /// Equality of surface names: the place where a name stands plays no part.
    pub open spec fn same(self, other: NameView) -> bool {
        self.repr == other.repr
    }

    /// The name one component below this one: `None` for a placeholder.
    pub open spec fn in_scope(self, component: Seq<char>) -> Option<NameView> {
        match self.repr {
            NameKindView::Qualified(components) => Some(
                NameView { span: self.span, repr: NameKindView::Qualified(components.push(component)) },
            ),
            NameKindView::Unqualified(s) => Some(
                NameView { span: self.span, repr: NameKindView::Qualified(seq![s, component]) },
            ),
            NameKindView::Placeholder => None,
        }
    }

    /// The global name of the core language that a written name stands for:
    /// `None` for a placeholder.
    pub open spec fn to_qualified(self) -> Option<crate::term::NameView> {
        match self.repr {
            NameKindView::Qualified(components) => Some(
                crate::term::NameView::Qual { span: self.span, components },
            ),
            NameKindView::Unqualified(s) => Some(
                crate::term::NameView::Qual { span: self.span, components: seq![s] },
            ),
            NameKindView::Placeholder => None,
        }
    }
}

impl Clone for NameKind {
    fn clone(&self) -> (r: NameKind)
        ensures
            r@ == self@,
    {
        match self {
            NameKind::Qualified(components) => NameKind::Qualified(
                crate::term::clone_strings(components),
            ),
            NameKind::Unqualified(s) => NameKind::Unqualified(s.clone()),
            NameKind::Placeholder => NameKind::Placeholder,
        }
    }
}

impl Clone for Name {
    fn clone(&self) -> (r: Name)
        ensures
            r@ == self@,
    {
        Name { span: self.span, repr: self.repr.clone() }
    }
}

impl Name {
    /// An unqualified name at no place in particular.
    pub fn from_str(s: &str) -> (r: Name)
        ensures
            r@ == (NameView { span: Span::none(), repr: NameKindView::Unqualified(s@) }),
    {
        Name { span: Span::dummy(), repr: NameKind::Unqualified(s.to_owned()) }
    }

    /// Whether two names are written alike, wherever they stand.
    pub fn same(&self, other: &Name) -> (r: bool)
        ensures
            r == self@.same(other@),
    {
        match (&self.repr, &other.repr) {
            (NameKind::Qualified(a), NameKind::Qualified(b)) => crate::term::strings_equal(a, b),
            (NameKind::Unqualified(a), NameKind::Unqualified(b)) => *a == *b,
            (NameKind::Placeholder, NameKind::Placeholder) => true,
            _ => false,
        }
    }

    /// The name one component below this one: `None` for a placeholder.
    pub fn in_scope(&self, component: String) -> (r: Option<Name>)
        ensures
            r.deep_view() == self@.in_scope(component@),
    {
        match &self.repr {
            NameKind::Qualified(components) => {
                let cs = crate::views::pushed(crate::term::clone_strings(components), component);
                Some(Name { span: self.span, repr: NameKind::Qualified(cs) })
            },
            NameKind::Unqualified(s) => {
                let cs = crate::views::pushed(
                    crate::views::pushed(crate::views::empty_list(), s.clone()),
                    component,
                );
                assert(cs.deep_view() =~= seq![s@, component@]);
                Some(Name { span: self.span, repr: NameKind::Qualified(cs) })
            },
            NameKind::Placeholder => None,
        }
    }

    /// The global name of the core language that this name stands for:
    /// `None` for a placeholder.
    pub fn to_qualified(&self) -> (r: Option<crate::term::Name>)
        ensures
            r.deep_view() == self@.to_qualified(),
    {
        match &self.repr {
            NameKind::Qualified(components) => Some(
                crate::term::Name::Qual {
                    span: self.span,
                    components: crate::term::clone_strings(components),
                },
            ),
            NameKind::Unqualified(s) => {
                let cs = crate::views::pushed(crate::views::empty_list(), s.clone());
                assert(cs.deep_view() =~= seq![s@]);
                Some(crate::term::Name::Qual { span: self.span, components: cs })
            },
            NameKind::Placeholder => None,
        }
    }
}

impl PartialEq for Name {
    fn eq(&self, other: &Name) -> (r: bool) {
        self.same(other)
    }
}

impl vstd::std_specs::cmp::PartialEqSpecImpl for Name {
    open spec fn obeys_eq_spec() -> bool {
        true
    }

    open spec fn eq_spec(&self, other: &Name) -> bool {
        self@.same(other@)
    }
}


/// The model of a [`Binder`].
pub ghost struct BinderView {
    pub name: NameView,
    pub ty: TermView,
}

/// The model of a [`Pattern`].
pub ghost enum PatternView {
    Name(NameView),
    Constructor(NameView, Seq<PatternView>),
    Placeholder,
}

/// The model of a [`Case`].
pub ghost struct CaseView {
    pub span: Span,
    pub pattern: PatternView,
    pub rhs: TermView,
}

/// The model of a [`Term`].
pub ghost enum TermView {
    Literal { span: Span, lit: Literal },
    Var { name: NameView },
    Match { span: Span, scrutinee: Box<TermView>, cases: Seq<CaseView> },
    App { span: Span, fun: Box<TermView>, arg: Box<TermView> },
    Forall { span: Span, binders: Seq<BinderView>, term: Box<TermView> },
    Lambda { span: Span, args: Seq<BinderView>, body: Box<TermView> },
    Let { span: Span, binders: Seq<BinderView>, values: Seq<TermView>, body: Box<TermView> },
    Type,
}

/// The model of an [`Inductive`].
pub ghost struct InductiveView {
    pub span: Span,
    pub name: NameView,
    pub parameters: Seq<BinderView>,
    pub ty: TermView,
    pub ctors: Seq<(NameView, TermView)>,
}

/// The model of a [`Def`].
pub ghost struct DefView {
    pub span: Span,
    pub name: NameView,
    pub args: Seq<BinderView>,
    pub ty: TermView,
    pub body: TermView,
}

/// The model of an [`Extern`].
pub ghost struct ExternView {
    pub span: Span,
    pub name: NameView,
    pub term: TermView,
}

/// The model of an [`Item`].
pub ghost enum ItemView {
    Inductive(InductiveView),
    Def(DefView),
    Extern(ExternView),
    Import(NameView),
    Comment(Seq<char>),
}

/// The model of a [`Module`].
pub ghost struct ModuleView {
    pub span: Span,
    pub name: NameView,
    pub items: Seq<ItemView>,
}

pub open spec fn pattern_view(p: Pattern) -> PatternView
    decreases p, 0nat,
{
    match p {
        Pattern::Name(n) => PatternView::Name(n@),
        Pattern::Constructor(n, ps) => PatternView::Constructor(n@, patterns_view(ps@, ps@.len())),
        Pattern::Placeholder => PatternView::Placeholder,
    }
}

/// The models of the first `n` patterns.
pub open spec fn patterns_view(ps: Seq<Pattern>, n: nat) -> Seq<PatternView>
    decreases ps, n,
{
    if n == 0 || n > ps.len() {
        Seq::empty()
    } else {
        patterns_view(ps, (n - 1) as nat).push(pattern_view(ps[n - 1]))
    }
}

pub open spec fn term_view(t: Term) -> TermView
    decreases t, 0nat,
{
    match t {
        Term::Literal { span, lit } => TermView::Literal { span, lit },
        Term::Var { name } => TermView::Var { name: name@ },
        Term::Match { span, scrutinee, cases } => TermView::Match {
            span,
            scrutinee: Box::new(term_view(*scrutinee)),
            cases: cases_view(cases@, cases@.len()),
        },
        Term::App { span, fun, arg } => TermView::App {
            span,
            fun: Box::new(term_view(*fun)),
            arg: Box::new(term_view(*arg)),
        },
        Term::Forall { span, binders, term } => TermView::Forall {
            span,
            binders: binders_view(binders@, binders@.len()),
            term: Box::new(term_view(*term)),
        },
        Term::Lambda { span, args, body } => TermView::Lambda {
            span,
            args: binders_view(args@, args@.len()),
            body: Box::new(term_view(*body)),
        },
        Term::Let { span, binders, values, body } => TermView::Let {
            span,
            binders: binders_view(binders@, binders@.len()),
            values: terms_view(values@, values@.len()),
            body: Box::new(term_view(*body)),
        },
        Term::Type => TermView::Type,
    }
}

/// The models of the first `n` binders.
pub open spec fn binders_view(bs: Seq<Binder>, n: nat) -> Seq<BinderView>
    decreases bs, n,
{
    if n == 0 || n > bs.len() {
        Seq::empty()
    } else {
        binders_view(bs, (n - 1) as nat).push(
            BinderView { name: bs[n - 1].name@, ty: term_view(bs[n - 1].ty) },
        )
    }
}

/// The models of the first `n` terms.
pub open spec fn terms_view(ts: Seq<Term>, n: nat) -> Seq<TermView>
    decreases ts, n,
{
    if n == 0 || n > ts.len() {
        Seq::empty()
    } else {
        terms_view(ts, (n - 1) as nat).push(term_view(ts[n - 1]))
    }
}

/// The models of the first `n` cases.
pub open spec fn cases_view(cs: Seq<Case>, n: nat) -> Seq<CaseView>
    decreases cs, n,
{
    if n == 0 || n > cs.len() {
        Seq::empty()
    } else {
        cases_view(cs, (n - 1) as nat).push(
            CaseView {
                span: cs[n - 1].span,
                pattern: pattern_view(cs[n - 1].pattern),
                rhs: term_view(cs[n - 1].rhs),
            },
        )
    }
}

/// The models of the first `n` constructors.
pub open spec fn ctors_view(cs: Seq<(Name, Term)>, n: nat) -> Seq<(NameView, TermView)>
    decreases n,
{
    if n == 0 || n > cs.len() {
        Seq::empty()
    } else {
        ctors_view(cs, (n - 1) as nat).push((cs[n - 1].0@, term_view(cs[n - 1].1)))
    }
}

pub open spec fn item_view(item: Item) -> ItemView {
    match item {
        Item::Inductive(d) => ItemView::Inductive(
            InductiveView {
                span: d.span,
                name: d.name@,
                parameters: binders_view(d.parameters@, d.parameters@.len()),
                ty: term_view(d.ty),
                ctors: ctors_view(d.ctors@, d.ctors@.len()),
            },
        ),
        Item::Def(f) => ItemView::Def(
            DefView {
                span: f.span,
                name: f.name@,
                args: binders_view(f.args@, f.args@.len()),
                ty: term_view(f.ty),
                body: term_view(f.body),
            },
        ),
        Item::Extern(e) => ItemView::Extern(
            ExternView { span: e.span, name: e.name@, term: term_view(e.term) },
        ),
        Item::Import(n) => ItemView::Import(n@),
        Item::Comment(c) => ItemView::Comment(c@),
    }
}

/// The models of the first `n` items.
pub open spec fn items_view(items: Seq<Item>, n: nat) -> Seq<ItemView>
    decreases n,
{
    if n == 0 || n > items.len() {
        Seq::empty()
    } else {
        items_view(items, (n - 1) as nat).push(item_view(items[n - 1]))
    }
}

impl View for Pattern {
    type V = PatternView;

    open spec fn view(&self) -> PatternView {
        pattern_view(*self)
    }
}

impl View for Term {
    type V = TermView;

    open spec fn view(&self) -> TermView {
        term_view(*self)
    }
}

impl View for Binder {
    type V = BinderView;

    open spec fn view(&self) -> BinderView {
        BinderView { name: self.name@, ty: term_view(self.ty) }
    }
}

impl View for Case {
    type V = CaseView;

    open spec fn view(&self) -> CaseView {
        CaseView { span: self.span, pattern: pattern_view(self.pattern), rhs: term_view(self.rhs) }
    }
}

impl View for Inductive {
    type V = InductiveView;

    open spec fn view(&self) -> InductiveView {
        InductiveView {
            span: self.span,
            name: self.name@,
            parameters: binders_view(self.parameters@, self.parameters@.len()),
            ty: term_view(self.ty),
            ctors: ctors_view(self.ctors@, self.ctors@.len()),
        }
    }
}

impl View for Def {
    type V = DefView;

    open spec fn view(&self) -> DefView {
        DefView {
            span: self.span,
            name: self.name@,
            args: binders_view(self.args@, self.args@.len()),
            ty: term_view(self.ty),
            body: term_view(self.body),
        }
    }
}

impl View for Extern {
    type V = ExternView;

    open spec fn view(&self) -> ExternView {
        ExternView { span: self.span, name: self.name@, term: term_view(self.term) }
    }
}

impl View for Item {
    type V = ItemView;

    open spec fn view(&self) -> ItemView {
        item_view(*self)
    }
}

impl View for Module {
    type V = ModuleView;

    open spec fn view(&self) -> ModuleView {
        ModuleView {
            span: self.span,
            name: self.name@,
            items: items_view(self.items@, self.items@.len()),
        }
    }
}

/// The models of a list of binders, item by item.
pub proof fn lemma_binders_view(bs: Seq<Binder>, n: nat)
    requires
        n <= bs.len(),
    ensures
        binders_view(bs, n).len() == n,
        forall|i: int| 0 <= i < n ==> #[trigger] binders_view(bs, n)[i] == bs[i]@,
    decreases n,
{
    if n > 0 {
        lemma_binders_view(bs, (n - 1) as nat);
    }
}

/// The models of a list of terms, item by item.
pub proof fn lemma_terms_view(ts: Seq<Term>, n: nat)
    requires
        n <= ts.len(),
    ensures
        terms_view(ts, n).len() == n,
        forall|i: int| 0 <= i < n ==> #[trigger] terms_view(ts, n)[i] == ts[i]@,
    decreases n,
{
    if n > 0 {
        lemma_terms_view(ts, (n - 1) as nat);
    }
}

/// The models of a list of cases, item by item.
pub proof fn lemma_cases_view(cs: Seq<Case>, n: nat)
    requires
        n <= cs.len(),
    ensures
        cases_view(cs, n).len() == n,
        forall|i: int| 0 <= i < n ==> #[trigger] cases_view(cs, n)[i] == cs[i]@,
    decreases n,
{
    if n > 0 {
        lemma_cases_view(cs, (n - 1) as nat);
    }
}

/// The models of a list of patterns, item by item.
pub proof fn lemma_patterns_view(ps: Seq<Pattern>, n: nat)
    requires
        n <= ps.len(),
    ensures
        patterns_view(ps, n).len() == n,
        forall|i: int| 0 <= i < n ==> #[trigger] patterns_view(ps, n)[i] == ps[i]@,
    decreases n,
{
    if n > 0 {
        lemma_patterns_view(ps, (n - 1) as nat);
    }
}

/// The models of a list of constructors, item by item.
pub proof fn lemma_ctors_view(cs: Seq<(Name, Term)>, n: nat)
    requires
        n <= cs.len(),
    ensures
        ctors_view(cs, n).len() == n,
        forall|i: int| 0 <= i < n ==> #[trigger] ctors_view(cs, n)[i] == (cs[i].0@, cs[i].1@),
    decreases n,
{
    if n > 0 {
        lemma_ctors_view(cs, (n - 1) as nat);
    }
}

/// The models of a list of items, item by item.
pub proof fn lemma_items_view(items: Seq<Item>, n: nat)
    requires
        n <= items.len(),
    ensures
        items_view(items, n).len() == n,
        forall|i: int| 0 <= i < n ==> #[trigger] items_view(items, n)[i] == items[i]@,
    decreases n,
{
    if n > 0 {
        lemma_items_view(items, (n - 1) as nat);
    }
}

} // verus!
