use hubris::constraint::{
    categorize_terms, AssertedBy, CategorizedConstraint, Constraint, ConstraintCategory, Justification,
};
use hubris::item::{Data, Function};
use hubris::queue::ConstraintQueue;
use hubris::solver::{replace_metavars, subst_meta_binder, Error, Solver};
use hubris::span::Span;
use hubris::term::{Binder, Name, Term};
use hubris::typeck::{Error as TypeError, TyCtxt};
use std::collections::HashMap;

fn global(s: &str) -> Term {
    Term::Var { name: Name::from_str(s) }
}

fn local(number: usize, repr: &str, ty: Term) -> Name {
    Name::Local { span: Span::dummy(), number, repr: repr.to_string(), ty: Box::new(ty) }
}

fn meta(number: usize) -> Name {
    Name::Meta { span: Span::dummy(), number, ty: Box::new(Term::Type) }
}

fn bound(index: usize) -> Term {
    Term::Var { name: Name::Bound { span: Span::dummy(), index, repr: "_".to_string() } }
}

fn app(f: Term, a: Term) -> Term {
    Term::App { span: Span::dummy(), fun: Box::new(f), arg: Box::new(a) }
}

fn lam(ty: Term, body: Term) -> Term {
    Term::Lambda {
        span: Span::dummy(),
        binder: Binder::new(Name::Bound { span: Span::dummy(), index: 0, repr: "_".to_string() }, ty),
        body: Box::new(body),
    }
}

fn pi(ty: Term, body: Term) -> Term {
    Term::Forall {
        span: Span::dummy(),
        binder: Binder::new(Name::Bound { span: Span::dummy(), index: 0, repr: "_".to_string() }, ty),
        term: Box::new(body),
    }
}

fn expected_found(found: Term, declared: Term) -> Justification {
    Justification::Asserted(AssertedBy::ExpectedFound(found, declared))
}

fn unify(t: Term, u: Term) -> Constraint {
    Constraint::Unification(t.clone(), u.clone(), expected_found(t, u))
}

fn is_expected_found(j: &Justification, found: &Term, declared: &Term) -> bool {
    match j {
        Justification::Asserted(AssertedBy::ExpectedFound(a, b)) => a == found && b == declared,
        _ => false,
    }
}

#[test]
fn simplify_of_a_term_against_itself_leaves_nothing() {
    let mut cx = TyCtxt::empty();
    let mut solver = Solver::new(&mut cx, vec![]).unwrap();
    let terms = vec![
        Term::Type,
        global("Nat"),
        app(global("f"), meta(0).to_term()),
        pi(global("Nat"), bound(0)),
        lam(Term::Type, app(bound(0), local(3, "x", Term::Type).to_term())),
    ];
    for t in terms {
        let cs = solver.simplify(t.clone(), t.clone(), Justification::Assumption).unwrap();
        assert!(cs.is_empty());
    }
    assert_eq!(solver.ty_cx.local_counter, 0);
}

#[test]
fn simplify_decomposes_function_types() {
    let mut cx = TyCtxt::empty();
    let mut solver = Solver::new(&mut cx, vec![]).unwrap();
    // forall (x : ?0), ?1  against  forall (x : Nat), Nat
    let t = pi(meta(0).to_term(), meta(1).to_term());
    let u = pi(global("Nat"), global("Nat"));
    let cs = solver.simplify(t, u, Justification::Assumption).unwrap();
    assert_eq!(cs.len(), 2);
    match &cs[0].constraint {
        Constraint::Unification(a, b, _) => {
            assert_eq!(a, &meta(0).to_term());
            assert_eq!(b, &global("Nat"));
        },
        _ => panic!("a unification"),
    }
    match &cs[1].constraint {
        Constraint::Unification(a, b, _) => {
            assert_eq!(a, &meta(1).to_term());
            assert_eq!(b, &global("Nat"));
        },
        _ => panic!("a unification"),
    }
    assert_eq!(cs[0].category, ConstraintCategory::Pattern);
    assert_eq!(solver.ty_cx.local_counter, 1);
}

#[test]
fn simplify_opens_both_bodies_with_one_fresh_local() {
    let mut cx = TyCtxt::empty();
    cx.local_counter = 10;
    let mut solver = Solver::new(&mut cx, vec![]).unwrap();
    // forall (x : Nat), ?0 x  against  forall (x : Nat), f x
    let t = pi(global("Nat"), app(meta(0).to_term(), bound(0)));
    let u = pi(global("Nat"), app(global("f"), bound(0)));
    let cs = solver.simplify(t, u, Justification::Assumption).unwrap();
    assert_eq!(cs.len(), 1);
    let fresh = local(10, "_", global("Nat")).to_term();
    match &cs[0].constraint {
        Constraint::Unification(a, b, _) => {
            assert_eq!(a, &app(meta(0).to_term(), fresh.clone()));
            assert_eq!(b, &app(global("f"), fresh));
        },
        _ => panic!("a unification"),
    }
    assert_eq!(cs[0].category, ConstraintCategory::Pattern);
}

#[test]
fn simplify_decomposes_lambdas_as_function_types() {
    let mut cx = TyCtxt::empty();
    let mut solver = Solver::new(&mut cx, vec![]).unwrap();
    let t = lam(global("Nat"), meta(0).to_term());
    let u = lam(global("Nat"), global("zero"));
    let cs = solver.simplify(t, u, Justification::Assumption).unwrap();
    assert_eq!(cs.len(), 1);
    assert_eq!(cs[0].category, ConstraintCategory::Pattern);
}

#[test]
fn simplify_decomposes_spines_with_the_same_local_head() {
    let mut cx = TyCtxt::empty();
    let mut solver = Solver::new(&mut cx, vec![]).unwrap();
    let f = local(0, "f", Term::Type).to_term();
    let t = app(app(f.clone(), meta(0).to_term()), global("a"));
    let u = app(app(f, global("b")), global("a"));
    let cs = solver.simplify(t, u, Justification::Assumption).unwrap();
    assert_eq!(cs.len(), 1);
    match &cs[0].constraint {
        Constraint::Unification(a, b, _) => {
            assert_eq!(a, &meta(0).to_term());
            assert_eq!(b, &global("b"));
        },
        _ => panic!("a unification"),
    }
}

#[test]
fn simplify_pairs_the_arguments_of_a_rigid_global() {
    let mut cx = TyCtxt::empty();
    let mut solver = Solver::new(&mut cx, vec![]).unwrap();
    let t = app(app(global("Pair"), meta(0).to_term()), global("Nat"));
    let u = app(app(global("Pair"), global("Bool")), global("Nat"));
    let cs = solver.simplify(t, u, Justification::Assumption).unwrap();
    assert_eq!(cs.len(), 2);
    assert_eq!(cs[0].category, ConstraintCategory::Pattern);
    assert_eq!(cs[1].category, ConstraintCategory::Ready);
}

#[test]
fn simplify_reduces_before_it_compares() {
    let mut cx = TyCtxt::empty();
    let mut solver = Solver::new(&mut cx, vec![]).unwrap();
    // (fun (x : Type) => x) Nat  against  Nat
    let t = app(lam(Term::Type, bound(0)), global("Nat"));
    let cs = solver.simplify(t.clone(), global("Nat"), Justification::Assumption).unwrap();
    assert!(cs.is_empty());
    let cs = solver.simplify(global("Nat"), t, Justification::Assumption).unwrap();
    assert!(cs.is_empty());
}

#[test]
fn simplify_refuses_two_rigid_terms_that_differ() {
    let mut cx = TyCtxt::empty();
    let mut solver = Solver::new(&mut cx, vec![]).unwrap();
    let j = expected_found(Term::Type, global("Nat"));
    match solver.simplify(Term::Type, global("Nat"), j) {
        Err(Error::Justification(j)) => assert!(is_expected_found(&j, &Term::Type, &global("Nat"))),
        other => panic!("expected a mismatch, got {:?}", other),
    }
}

#[test]
fn simplify_out_of_locals() {
    let mut cx = TyCtxt::empty();
    cx.local_counter = usize::MAX;
    let mut solver = Solver::new(&mut cx, vec![]).unwrap();
    let t = pi(global("Nat"), meta(0).to_term());
    let u = pi(global("Nat"), global("Nat"));
    match solver.simplify(t, u, Justification::Assumption) {
        Err(Error::TypeCk(e)) => assert!(matches!(*e, TypeError::OutOfNames)),
        other => panic!("expected the supply to be used up, got {:?}", other),
    }
}

#[test]
fn pattern_unification_solves() {
    // ?m a b = F a b  gives  ?m := fun a b => F a b
    let a = local(0, "a", global("Nat"));
    let b = local(1, "b", global("Nat"));
    let lhs = app(app(meta(0).to_term(), a.to_term()), b.to_term());
    let rhs = app(app(global("F"), a.to_term()), b.to_term());
    let mut cx = TyCtxt::empty();
    let solver = Solver::new(&mut cx, vec![unify(lhs.clone(), rhs.clone())]).unwrap();
    let solutions = solver.solve().unwrap();
    assert_eq!(solutions.len(), 1);
    let (term, j) = solutions.get(&0).unwrap();
    assert_eq!(term, &Term::abstract_lambda(vec![a, b], rhs.clone()));
    assert_eq!(
        term,
        &lam(global("Nat"), lam(global("Nat"), app(app(global("F"), bound(1)), bound(0))))
    );
    assert!(is_expected_found(j, &lhs, &rhs));
}

#[test]
fn a_pattern_on_the_right_is_solved_too() {
    let a = local(0, "a", global("Nat"));
    let lhs = app(global("F"), a.to_term());
    let rhs = app(meta(2).to_term(), a.to_term());
    let mut cx = TyCtxt::empty();
    let solver = Solver::new(&mut cx, vec![unify(lhs.clone(), rhs)]).unwrap();
    let solutions = solver.solve().unwrap();
    assert_eq!(solutions.get(&2).unwrap().0, lam(global("Nat"), app(global("F"), bound(0))));
}

#[test]
fn a_solution_is_put_into_later_constraints() {
    // ?0 = Nat, then f ?0 = f Nat is met, and f ?0 = f Bool is not.
    let first = unify(meta(0).to_term(), global("Nat"));
    let second = unify(app(global("f"), meta(0).to_term()), app(global("f"), global("Nat")));
    let mut cx = TyCtxt::empty();
    let solver = Solver::new(&mut cx, vec![first.clone(), second]).unwrap();
    let solutions = solver.solve().unwrap();
    assert_eq!(solutions.get(&0).unwrap().0, global("Nat"));

    let third = unify(app(global("f"), meta(0).to_term()), app(global("f"), global("Bool")));
    let mut cx = TyCtxt::empty();
    match Solver::new(&mut cx, vec![first, third]) {
        Err(Error::Justification(Justification::Join(_, _))) => {},
        Err(other) => panic!("expected a joined justification, got {:?}", other),
        Ok(_) => panic!("expected a mismatch"),
    }
}

#[test]
fn a_parked_constraint_is_visited_when_its_metavariable_is_solved() {
    // ?0 x x = Nat is no pattern and waits for ?0; ?0 = fun a b => Nat then meets it.
    let x = local(0, "x", global("Nat"));
    let waiting = unify(app(app(meta(0).to_term(), x.to_term()), x.to_term()), global("Nat"));
    let solving = unify(meta(0).to_term(), lam(global("Nat"), lam(global("Nat"), global("Nat"))));
    let mut cx = TyCtxt::empty();
    let solver = Solver::new(&mut cx, vec![waiting, solving]).unwrap();
    assert_eq!(solver.constraints.len(), 1);
    assert!(solver.solution_for(&meta(0)).is_some());
    let solutions = solver.solve().unwrap();
    assert_eq!(solutions.len(), 1);
}

#[test]
fn a_constraint_that_stays_blocked_is_an_error() {
    let x = local(0, "x", global("Nat"));
    let waiting = unify(app(app(meta(0).to_term(), x.to_term()), x.to_term()), global("Nat"));
    let mut cx = TyCtxt::empty();
    let solver = Solver::new(&mut cx, vec![waiting]).unwrap();
    assert!(matches!(solver.solve(), Err(Error::Justification(_))));
}

#[test]
fn flex_flex_constraints_with_no_solutions_are_consistent() {
    let x = local(0, "x", global("Nat"));
    let c = unify(app(meta(0).to_term(), x.to_term()), app(meta(1).to_term(), x.to_term()));
    let mut cx = TyCtxt::empty();
    let solver = Solver::new(&mut cx, vec![c]).unwrap();
    let solutions = solver.solve().unwrap();
    assert!(solutions.is_empty());
}

#[test]
fn choice_constraints_are_refused() {
    let mut cx = TyCtxt::empty();
    match Solver::new(&mut cx, vec![Constraint::Choice(global("a"))]) {
        Err(Error::UnsupportedChoice) => {},
        Err(other) => panic!("expected a refusal, got {:?}", other),
        Ok(_) => panic!("expected a refusal"),
    }
}

#[test]
fn visit_parks_what_it_cannot_solve() {
    let x = local(0, "x", global("Nat"));
    let t = app(app(meta(5).to_term(), x.to_term()), x.to_term());
    let mut cx = TyCtxt::empty();
    let mut solver = Solver::new(&mut cx, vec![]).unwrap();
    solver
        .visit_unification(t.clone(), global("Nat"), Justification::Assumption, ConstraintCategory::FlexRigid)
        .unwrap();
    assert_eq!(solver.constraints.len(), 1);
    assert_eq!(solver.constraint_mapping.get(&5).unwrap().len(), 1);
    assert!(solver.solution_for(&meta(5)).is_none());
    let c = CategorizedConstraint {
        category: ConstraintCategory::FlexRigid,
        constraint: Constraint::Unification(t, global("Bool"), Justification::Assumption),
    };
    solver.visit(c).unwrap();
    assert_eq!(solver.constraints.len(), 2);
    assert_eq!(solver.constraint_mapping.get(&5).unwrap().len(), 2);
}

#[test]
fn resolve_reports_the_justification() {
    let mut cx = TyCtxt::empty();
    let solver = Solver::new(&mut cx, vec![]).unwrap();
    match solver.resolve(Justification::Assumption) {
        Err(Error::Justification(Justification::Assumption)) => {},
        other => panic!("expected the justification back, got {:?}", other),
    }
}

#[test]
fn justifications_are_explained_before_they_are_reported() {
    // With ?0 := Nat, a mismatch that mentions ?0 is reported with Nat in its place.
    let first = unify(meta(0).to_term(), global("Nat"));
    let j = expected_found(meta(0).to_term(), global("Bool"));
    let second = Constraint::Unification(global("Bool"), global("Nat"), j);
    let mut cx = TyCtxt::empty();
    match Solver::new(&mut cx, vec![first, second]) {
        Err(Error::Justification(j)) => assert!(is_expected_found(&j, &global("Nat"), &global("Bool"))),
        Err(other) => panic!("expected a mismatch, got {:?}", other),
        Ok(_) => panic!("expected a mismatch"),
    }
}

#[test]
fn replace_metavars_puts_solutions_in() {
    let mut map: HashMap<usize, (Term, Justification)> = HashMap::new();
    map.insert(0, (global("Nat"), Justification::Assumption));
    map.insert(1, (global("zero"), Justification::Assumption));
    let t = lam(meta(0).to_term(), app(global("f"), meta(1).to_term()));
    let r = replace_metavars(t, &map).unwrap();
    assert_eq!(r, lam(global("Nat"), app(global("f"), global("zero"))));
    assert_eq!(replace_metavars(Term::Type, &map).unwrap(), Term::Type);
    assert_eq!(replace_metavars(global("g"), &map).unwrap(), global("g"));
    let b = subst_meta_binder(Binder::new(Name::from_str("x"), meta(0).to_term()), &map).unwrap();
    assert_eq!(*b.ty, global("Nat"));
}

#[test]
fn replace_metavars_twice_is_replace_metavars_once() {
    let mut map: HashMap<usize, (Term, Justification)> = HashMap::new();
    map.insert(0, (global("Nat"), Justification::Assumption));
    map.insert(1, (lam(global("Nat"), bound(0)), Justification::Assumption));
    let t = pi(meta(0).to_term(), app(meta(1).to_term(), meta(0).to_term()));
    let once = replace_metavars(t, &map).unwrap();
    let twice = replace_metavars(once.clone(), &map).unwrap();
    assert_eq!(once, twice);
}

#[test]
fn replace_metavars_reports_a_metavariable_without_solution() {
    let map: HashMap<usize, (Term, Justification)> = HashMap::new();
    match replace_metavars(app(global("f"), meta(9).to_term()), &map) {
        Err(Error::UnsolvedMeta(n)) => assert_eq!(n, meta(9)),
        other => panic!("expected an unsolved metavariable, got {:?}", other),
    }
}

#[test]
fn categories_follow_the_heads() {
    let x = local(0, "x", Term::Type).to_term();
    let y = local(1, "y", Term::Type).to_term();
    let m = meta(0).to_term();
    let n = meta(1).to_term();
    assert_eq!(
        categorize_terms(&app(global("f"), x.clone()), &app(global("f"), y.clone())),
        ConstraintCategory::Ready
    );
    assert_eq!(
        categorize_terms(&app(app(m.clone(), x.clone()), y.clone()), &global("a")),
        ConstraintCategory::Pattern
    );
    assert_eq!(
        categorize_terms(&app(app(m.clone(), x.clone()), x.clone()), &global("a")),
        ConstraintCategory::FlexRigid
    );
    assert_eq!(
        categorize_terms(&app(m.clone(), global("a")), &global("a")),
        ConstraintCategory::FlexRigid
    );
    assert_eq!(
        categorize_terms(&app(m.clone(), x.clone()), &app(n.clone(), y.clone())),
        ConstraintCategory::FlexFlex
    );
    assert_eq!(
        categorize_terms(&app(global("f"), m.clone()), &app(global("g"), x.clone())),
        ConstraintCategory::Regular
    );
    assert_eq!(Constraint::Choice(x).categorize().category, ConstraintCategory::Postponed);
}

#[test]
fn the_queue_hands_out_the_most_actionable_first_and_keeps_order_among_equals() {
    let mut q = ConstraintQueue::new();
    let c = |category: ConstraintCategory, tag: &str| CategorizedConstraint {
        category,
        constraint: Constraint::Unification(global(tag), global(tag), Justification::Assumption),
    };
    q.push(c(ConstraintCategory::Postponed, "p"));
    q.push(c(ConstraintCategory::FlexFlex, "ff"));
    q.push(c(ConstraintCategory::Regular, "r1"));
    q.push(c(ConstraintCategory::FlexRigid, "fr"));
    q.push(c(ConstraintCategory::Pattern, "pat"));
    q.push(c(ConstraintCategory::Regular, "r2"));
    assert_eq!(q.len(), 6);
    let mut order = vec![];
    while let Some(next) = q.pop() {
        match next.constraint {
            Constraint::Unification(Term::Var { name: Name::Qual { components, .. } }, _, _) => {
                order.push(components[0].clone())
            },
            _ => panic!("a unification between globals"),
        }
    }
    assert_eq!(order, vec!["pat", "fr", "r1", "r2", "ff", "p"]);
    assert!(q.is_empty());
    assert!(q.pop().is_none());
}

#[test]
fn priorities_are_ordered() {
    let ranks: Vec<u8> = [
        ConstraintCategory::Pattern,
        ConstraintCategory::FlexRigid,
        ConstraintCategory::Regular,
        ConstraintCategory::FlexFlex,
        ConstraintCategory::Postponed,
    ]
    .iter()
    .map(|c| c.priority())
    .collect();
    let mut sorted = ranks.clone();
    sorted.sort();
    sorted.dedup();
    assert_eq!(ranks, sorted);
    assert!(ConstraintCategory::Resolved.priority() < ConstraintCategory::Pattern.priority());
    assert!(ConstraintCategory::Ready.priority() < ConstraintCategory::Pattern.priority());
}

#[test]
fn a_definition_is_unfolded_during_simplification() {
    let mut cx = TyCtxt::empty();
    cx.declare_def(&Function {
        name: Name::from_str("two"),
        args: vec![],
        ret_ty: global("Nat"),
        body: app(global("succ"), app(global("succ"), global("zero"))),
    });
    let mut solver = Solver::new(&mut cx, vec![]).unwrap();
    let cs = solver
        .simplify(global("two"), app(global("succ"), meta(0).to_term()), Justification::Assumption)
        .unwrap();
    assert_eq!(cs.len(), 1);
    match &cs[0].constraint {
        Constraint::Unification(a, b, _) => {
            assert_eq!(a, &app(global("succ"), global("zero")));
            assert_eq!(b, &meta(0).to_term());
        },
        _ => panic!("a unification"),
    }
}

#[test]
fn a_pattern_constraint_that_is_no_pattern_is_parked_as_flex_rigid() {
    // ?5 x zero = Nat was handed over as a pattern, but zero is no local
    let x = local(0, "x", global("Nat"));
    let t = app(app(meta(5).to_term(), x.to_term()), global("zero"));
    let mut cx = TyCtxt::empty();
    let mut solver = Solver::new(&mut cx, vec![]).unwrap();
    solver
        .visit_unification(t, global("Nat"), Justification::Assumption, ConstraintCategory::Pattern)
        .unwrap();
    assert!(solver.solution_for(&meta(5)).is_none());
    let parked = solver.constraint_mapping.get(&5).unwrap();
    assert_eq!(parked.len(), 1);
    assert_eq!(parked[0].category, ConstraintCategory::FlexRigid);
}

#[test]
fn flex_flex_constraints_must_agree_on_their_solutions() {
    // ?0 x x = ?1 x x stays flex-flex; then ?0 is solved and ?1 is not
    let x = local(0, "x", global("Nat"));
    let double = |m: usize| app(app(meta(m).to_term(), x.to_term()), x.to_term());
    let flex = unify(double(0), double(1));
    let mut cx = TyCtxt::empty();
    let mut solver = Solver::new(&mut cx, vec![flex]).unwrap();
    assert_eq!(solver.constraints.len(), 1);
    solver.solution_mapping.insert(0, (global("Nat"), Justification::Assumption));
    assert!(matches!(solver.solve(), Err(Error::Justification(_))));

    // with the same solution for both, the constraint is consistent
    let flex = unify(double(0), double(1));
    let mut cx = TyCtxt::empty();
    let mut solver = Solver::new(&mut cx, vec![flex]).unwrap();
    solver.solution_mapping.insert(0, (global("Nat"), Justification::Assumption));
    solver.solution_mapping.insert(1, (global("Nat"), Justification::Assumption));
    assert_eq!(solver.solve().unwrap().len(), 2);
}

#[test]
fn solutions_are_looked_up_by_metavariable() {
    let mut cx = TyCtxt::empty();
    let solver = Solver::new(&mut cx, vec![unify(meta(3).to_term(), global("Nat"))]).unwrap();
    let (term, _) = solver.solution_for(&meta(3)).unwrap();
    assert_eq!(term, global("Nat"));
    assert!(solver.solution_for(&meta(4)).is_none());
    assert!(solver.solution_for(&Name::from_str("Nat")).is_none());
}

fn nat_data() -> Data {
    Data {
        span: Span::dummy(),
        name: Name::from_str("Nat"),
        parameters: vec![],
        ty: Term::Type,
        ctors: vec![
            (Name::from_str("zero"), global("Nat")),
            (Name::from_str("succ"), pi(global("Nat"), global("Nat"))),
        ],
    }
}

#[test]
fn blocked_recursors_are_compared_argument_by_argument() {
    let mut cx = TyCtxt::empty();
    cx.declare_datatype(&nat_data()).unwrap();
    let rec = Term::Var { name: Name::from_str("Nat").in_scope("rec".to_string()).unwrap() };
    let x = local(100, "x", global("Nat")).to_term();
    let y = local(101, "y", global("Nat")).to_term();
    let on = |c: Term, n: Term| app(app(app(app(rec.clone(), c), global("z")), global("s")), n);
    let mut solver = Solver::new(&mut cx, vec![]).unwrap();
    // the motives differ as written and agree after a step
    let c = global("C");
    let c_redex = app(lam(Term::Type, bound(0)), global("C"));
    let cs = solver.simplify(on(c.clone(), x.clone()), on(c_redex, x.clone()), Justification::Assumption).unwrap();
    assert!(cs.is_empty());
    // the scrutinees are two locals
    let j = expected_found(x.clone(), y.clone());
    match solver.simplify(on(c.clone(), x.clone()), on(c.clone(), y.clone()), j) {
        Err(Error::Justification(j)) => assert!(is_expected_found(&j, &x, &y)),
        other => panic!("expected a mismatch, got {:?}", other),
    }
    // with a metavariable in a spine the constraint waits
    let cs = solver
        .simplify(on(meta(0).to_term(), x.clone()), on(c, x.clone()), Justification::Assumption)
        .unwrap();
    assert_eq!(cs.len(), 1);
    assert_eq!(cs[0].category, ConstraintCategory::FlexRigid);
}

#[test]
fn a_constraint_with_no_stuck_side_is_not_visited_in_silence() {
    let mut cx = TyCtxt::empty();
    let mut solver = Solver::new(&mut cx, vec![]).unwrap();
    let j = expected_found(Term::Type, Term::Type);
    match solver.visit_unification(Term::Type, Term::Type, j, ConstraintCategory::Ready) {
        Err(Error::Justification(j)) => assert!(is_expected_found(&j, &Term::Type, &Term::Type)),
        other => panic!("expected an error, got {:?}", other),
    }
    assert!(solver.solution_mapping.is_empty());
    assert!(solver.constraint_mapping.is_empty());
    assert_eq!(solver.constraints.len(), 0);
    let c = CategorizedConstraint {
        category: ConstraintCategory::Regular,
        constraint: unify(global("Nat"), global("Bool")),
    };
    assert!(matches!(solver.visit(c), Err(Error::Justification(_))));
}

#[test]
fn consistent_flex_flex_constraints_never_use_up_the_limit() {
    // more constraints than the limit counts, all of them consistent
    let x = local(0, "x", global("Nat"));
    let double = |m: usize| app(app(meta(m).to_term(), x.to_term()), x.to_term());
    let many: Vec<Constraint> = (0..5000).map(|i| unify(double(2 * i), double(2 * i + 1))).collect();
    let mut cx = TyCtxt::empty();
    let mut solver = Solver::new(&mut cx, many).unwrap();
    assert_eq!(solver.constraints.len(), 5000);
    solver.solution_mapping.insert(100_000, (global("Nat"), Justification::Assumption));
    let solutions = solver.solve().unwrap();
    assert_eq!(solutions.len(), 1);
    assert_eq!(solutions.get(&100_000).unwrap().0, global("Nat"));
}

#[test]
fn taking_terms_apart_is_not_limited() {
    // f (f (... (f ?0))) against f (f (... (f Nat))), 300 deep: nothing is reduced
    let f = local(7, "f", pi(global("Nat"), global("Nat"))).to_term();
    let mut t = meta(0).to_term();
    let mut u = global("Nat");
    for _ in 0..300 {
        t = app(f.clone(), t);
        u = app(f.clone(), u);
    }
    let mut cx = TyCtxt::empty();
    let mut solver = Solver::new(&mut cx, vec![]).unwrap();
    let cs = solver.simplify(t, u, Justification::Assumption).unwrap();
    assert_eq!(cs.len(), 1);
    match &cs[0].constraint {
        Constraint::Unification(a, b, _) => {
            assert_eq!(a, &meta(0).to_term());
            assert_eq!(b, &global("Nat"));
        },
        _ => panic!("a unification"),
    }
    // the same under 300 binders
    let mut t = meta(0).to_term();
    let mut u = global("Nat");
    for _ in 0..300 {
        t = pi(global("Nat"), t);
        u = pi(global("Nat"), u);
    }
    let cs = solver.simplify(t, u, Justification::Assumption).unwrap();
    assert_eq!(cs.len(), 1);
    assert_eq!(solver.ty_cx.local_counter, 300);
}

#[test]
fn reduction_without_end_is_cut_off() {
    let w = lam(Term::Type, app(bound(0), bound(0)));
    let omega = app(w.clone(), w);
    let mut cx = TyCtxt::empty();
    let mut solver = Solver::new(&mut cx, vec![]).unwrap();
    let j = expected_found(omega.clone(), global("Nat"));
    assert!(matches!(solver.simplify(omega, global("Nat"), j), Err(Error::Justification(_))));
}
