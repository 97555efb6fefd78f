//! Constraints, why they exist, and the categories that order the solver's work.

use vstd::prelude::*;
use crate::span::Span;
use crate::term::{term_view, Name, NameView, Term, TermView};

verus! {

/// What asserted that two terms must be equal.
#[derive(Debug)]
pub enum AssertedBy {
    /// An application at the given place, with the type of the function and
    /// the type of the argument.
    Application(Span, Term, Term),
    /// A declaration: the type that was inferred, then the type that was declared.
    ExpectedFound(Term, Term),
}

/// Why a constraint exists.
#[derive(Debug)]
pub enum Justification {
    Asserted(AssertedBy),
    Assumption,
    Join(Box<Justification>, Box<Justification>),
}

/// A requirement that the solver has to meet.
#[derive(Debug)]
pub enum Constraint {
    /// The two terms must be definitionally equal.
    Unification(Term, Term, Justification),
    /// A branching constraint on the given term. No solver rule handles it.
    Choice(Term),
}

/// The shape of a constraint, by which the solver orders its work.
#[derive(Clone, Copy, Debug, PartialEq, Eq, Structural)]
pub enum ConstraintCategory {
    Resolved,
    Pattern,
    FlexRigid,
    FlexFlex,
    Ready,
    Regular,
    Postponed,
}

/// A constraint together with its category.
#[derive(Debug)]
pub struct CategorizedConstraint {
    pub category: ConstraintCategory,
    pub constraint: Constraint,
}

pub type ConstraintSeq = Vec<Constraint>;

pub ghost enum AssertedByView {
    Application(Span, TermView, TermView),
    ExpectedFound(TermView, TermView),
}

pub ghost enum JustificationView {
    Asserted(AssertedByView),
    Assumption,
    Join(Box<JustificationView>, Box<JustificationView>),
}

pub ghost enum ConstraintView {
    Unification(TermView, TermView, JustificationView),
    Choice(TermView),
}

pub ghost struct CategorizedConstraintView {
    pub category: ConstraintCategory,
    pub constraint: ConstraintView,
}

pub open spec fn asserted_by_view(by: AssertedBy) -> AssertedByView {
    match by {
        AssertedBy::Application(span, t, u) => AssertedByView::Application(
            span,
            term_view(t),
            term_view(u),
        ),
        AssertedBy::ExpectedFound(t, u) => AssertedByView::ExpectedFound(term_view(t), term_view(u)),
    }
}

pub open spec fn justification_view(j: Justification) -> JustificationView
    decreases j,
{
    match j {
        Justification::Asserted(by) => JustificationView::Asserted(asserted_by_view(by)),
        Justification::Assumption => JustificationView::Assumption,
        Justification::Join(a, b) => JustificationView::Join(
            Box::new(justification_view(*a)),
            Box::new(justification_view(*b)),
        ),
    }
}

impl View for AssertedBy {
    type V = AssertedByView;

    open spec fn view(&self) -> AssertedByView {
        asserted_by_view(*self)
    }
}

impl View for Justification {
    type V = JustificationView;

    open spec fn view(&self) -> JustificationView {
        justification_view(*self)
    }
}

impl DeepView for Justification {
    type V = JustificationView;

    open spec fn deep_view(&self) -> JustificationView {
        justification_view(*self)
    }
}

impl View for Constraint {
    type V = ConstraintView;

    open spec fn view(&self) -> ConstraintView {
        match *self {
            Constraint::Unification(t, u, j) => ConstraintView::Unification(t@, u@, j@),
            Constraint::Choice(t) => ConstraintView::Choice(t@),
        }
    }
}

impl DeepView for Constraint {
    type V = ConstraintView;

    open spec fn deep_view(&self) -> ConstraintView {
        self@
    }
}

impl View for CategorizedConstraint {
    type V = CategorizedConstraintView;

    open spec fn view(&self) -> CategorizedConstraintView {
        CategorizedConstraintView { category: self.category, constraint: self.constraint@ }
    }
}

impl DeepView for CategorizedConstraint {
    type V = CategorizedConstraintView;

    open spec fn deep_view(&self) -> CategorizedConstraintView {
        self@
    }
}

impl JustificationView {
    pub open spec fn join(self, other: JustificationView) -> JustificationView {
        JustificationView::Join(Box::new(self), Box::new(other))
    }

    /// Whether the justification is one of `given`, or joins two that are built from `given`.
    pub open spec fn built_from(self, given: Set<JustificationView>) -> bool
        decreases self,
    {
        given.contains(self) || match self {
            JustificationView::Join(a, b) => a.built_from(given) && b.built_from(given),
            _ => false,
        }
    }
}

/// The number of the local that `t` is, if it is a variable that names one.
pub open spec fn local_number(t: TermView) -> Option<usize> {
    match t {
        TermView::Var { name: NameView::Local { number, .. } } => Some(number),
        _ => None,
    }
}

/// Whether every term of `args` is a local variable and no local occurs twice.
pub open spec fn distinct_locals(args: Seq<TermView>) -> bool {
    &&& forall|i: int| 0 <= i < args.len() ==> (#[trigger] local_number(args[i])) is Some
    &&& forall|i: int, j: int|
        0 <= i < j < args.len() ==> local_number(args[i]) != local_number(args[j])
}

/// Whether `t` is a metavariable applied to distinct local variables.
pub open spec fn is_pattern(t: TermView) -> bool {
    t.head_is_meta() && distinct_locals(t.args())
}

/// The category of the requirement that `t` and `u` be equal.
pub open spec fn category_of(t: TermView, u: TermView) -> ConstraintCategory {
    if !t.has_meta() && !u.has_meta() && t.head().same(u.head()) {
        ConstraintCategory::Ready
    } else if is_pattern(t) != is_pattern(u) {
        ConstraintCategory::Pattern
    } else if t.head_is_meta() && u.head_is_meta() {
        ConstraintCategory::FlexFlex
    } else if t.head_is_meta() || u.head_is_meta() {
        ConstraintCategory::FlexRigid
    } else {
        ConstraintCategory::Regular
    }
}

impl ConstraintCategory {
    /// The place of the category in the solver's order of work; the lowest comes first.
    pub open spec fn rank(self) -> nat {
        match self {
            ConstraintCategory::Resolved => 0,
            ConstraintCategory::Ready => 1,
            ConstraintCategory::Pattern => 2,
            ConstraintCategory::FlexRigid => 3,
            ConstraintCategory::Regular => 4,
            ConstraintCategory::FlexFlex => 5,
            ConstraintCategory::Postponed => 6,
        }
    }

    pub fn priority(&self) -> (r: u8)
        ensures
            r == self.rank(),
    {
        match self {
            ConstraintCategory::Resolved => 0,
            ConstraintCategory::Ready => 1,
            ConstraintCategory::Pattern => 2,
            ConstraintCategory::FlexRigid => 3,
            ConstraintCategory::Regular => 4,
            ConstraintCategory::FlexFlex => 5,
            ConstraintCategory::Postponed => 6,
        }
    }
}

impl ConstraintView {
    /// The constraint with its category: that of its two sides for a
    /// unification, `Postponed` for a choice.
    pub open spec fn categorize(self) -> CategorizedConstraintView {
        match self {
            ConstraintView::Unification(t, u, _) => CategorizedConstraintView {
                category: category_of(t, u),
                constraint: self,
            },
            ConstraintView::Choice(_) => CategorizedConstraintView {
                category: ConstraintCategory::Postponed,
                constraint: self,
            },
        }
    }
}

impl Clone for AssertedBy {
    fn clone(&self) -> (r: AssertedBy)
        ensures
            r@ == self@,
    {
        match self {
            AssertedBy::Application(span, t, u) => AssertedBy::Application(
                *span,
                t.clone(),
                u.clone(),
            ),
            AssertedBy::ExpectedFound(t, u) => AssertedBy::ExpectedFound(t.clone(), u.clone()),
        }
    }
}

impl Clone for Justification {
    fn clone(&self) -> (r: Justification)
        ensures
            r@ == self@,
        decreases self,
    {
        match self {
            Justification::Asserted(by) => Justification::Asserted(by.clone()),
            Justification::Assumption => Justification::Assumption,
            Justification::Join(a, b) => Justification::Join(
                Box::new((**a).clone()),
                Box::new((**b).clone()),
            ),
        }
    }
}

impl Clone for Constraint {
    fn clone(&self) -> (r: Constraint)
        ensures
            r@ == self@,
    {
        match self {
            Constraint::Unification(t, u, j) => Constraint::Unification(
                t.clone(),
                u.clone(),
                j.clone(),
            ),
            Constraint::Choice(t) => Constraint::Choice(t.clone()),
        }
    }
}

impl Clone for CategorizedConstraint {
    fn clone(&self) -> (r: CategorizedConstraint)
        ensures
            r@ == self@,
    {
        CategorizedConstraint { category: self.category, constraint: self.constraint.clone() }
    }
}

/// Copies a list of categorized constraints.
pub fn clone_constraints(v: &Vec<CategorizedConstraint>) -> (r: Vec<CategorizedConstraint>)
    ensures
        r.deep_view() == v.deep_view(),
{
    let mut out: Vec<CategorizedConstraint> = Vec::new();
    let mut i: usize = 0;
    while i < v.len()
        invariant
            i <= v.len(),
            out.len() == i,
            forall|k: int| 0 <= k < i ==> out[k]@ == v[k]@,
        decreases v.len() - i,
    {
        out.push(v[i].clone());
        i += 1;
    }
    assert(out.deep_view() =~= v.deep_view());
    out
}

impl Justification {
    /// The justification that rests on both `self` and `other`.
    pub fn join(self, other: Justification) -> (r: Justification)
        ensures
            r@ == self@.join(other@),
    {
        Justification::Join(Box::new(self), Box::new(other))
    }
}

/// The number of the local that `t` is, if it is a variable that names one.
pub fn local_number_of(t: &Term) -> (r: Option<usize>)
    ensures
        r == local_number(t@),
{
    proof {
        reveal_with_fuel(term_view, 2);
    }
    match t {
        Term::Var { name: Name::Local { number, .. } } => Some(*number),
        _ => None,
    }
}

/// Whether every term of `args` is a local variable and no local occurs twice.
pub fn all_distinct_locals(args: &Vec<Term>) -> (r: bool)
    ensures
        r == distinct_locals(args.deep_view()),
{
    let ghost view = args.deep_view();
    let mut i: usize = 0;
    while i < args.len()
        invariant
            i <= args.len(),
            view == args.deep_view(),
            forall|a: int| 0 <= a < i ==> (#[trigger] local_number(view[a])) is Some,
            forall|a: int, b: int| 0 <= a < b < i ==> local_number(view[a]) != local_number(view[b]),
        decreases args.len() - i,
    {
        let n = local_number_of(&args[i]);
        if n.is_none() {
            assert(local_number(view[i as int]) is None);
            return false;
        }
        let mut j: usize = 0;
        while j < i
            invariant
                j <= i,
                i < args.len(),
                view == args.deep_view(),
                n == local_number(view[i as int]),
                forall|a: int| 0 <= a < j ==> local_number(view[a]) != local_number(view[i as int]),
            decreases i - j,
        {
            let m = local_number_of(&args[j]);
            if m == n {
                assert(local_number(view[j as int]) == local_number(view[i as int]));
                return false;
            }
            j += 1;
        }
        i += 1;
    }
    true
}

/// Whether `t` is a metavariable applied to distinct local variables.
pub fn term_is_pattern(t: &Term) -> (r: bool)
    ensures
        r == is_pattern(t@),
{
    if t.head_is_meta() {
        let args = t.args();
        all_distinct_locals(&args)
    } else {
        false
    }
}

/// The category of the requirement that `t` and `u` be equal.
pub fn categorize_terms(t: &Term, u: &Term) -> (r: ConstraintCategory)
    ensures
        r == category_of(t@, u@),
{
    if !t.has_meta() && !u.has_meta() && t.head().same(&u.head()) {
        ConstraintCategory::Ready
    } else if term_is_pattern(t) != term_is_pattern(u) {
        ConstraintCategory::Pattern
    } else if t.head_is_meta() && u.head_is_meta() {
        ConstraintCategory::FlexFlex
    } else if t.head_is_meta() || u.head_is_meta() {
        ConstraintCategory::FlexRigid
    } else {
        ConstraintCategory::Regular
    }
}

impl Constraint {
    /// Attaches to the constraint the category that its shape gives it.
    pub fn categorize(self) -> (r: CategorizedConstraint)
        ensures
            r@ == self@.categorize(),
    {
        let category = match &self {
            Constraint::Unification(t, u, _) => categorize_terms(t, u),
            Constraint::Choice(_) => ConstraintCategory::Postponed,
        };
        CategorizedConstraint { category, constraint: self }
    }
}

} // verus!
