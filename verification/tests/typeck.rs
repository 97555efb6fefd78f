use hubris::constraint::{AssertedBy, Constraint, Justification};
use hubris::item::{Data, Extern, Function, Item, Module};
use hubris::span::Span;
use hubris::term::{Binder, Literal, Name, Term};
use hubris::typeck::{Error, Kind, Reduction, TyCtxt};

fn global(s: &str) -> Term {
    Term::Var { name: Name::from_str(s) }
}

fn qualified(parts: &[&str]) -> Name {
    Name::Qual { span: Span::dummy(), components: parts.iter().map(|s| s.to_string()).collect() }
}

fn local(number: usize, repr: &str, ty: Term) -> Name {
    Name::Local { span: Span::dummy(), number, repr: repr.to_string(), ty: Box::new(ty) }
}

fn meta(number: usize, ty: Term) -> Name {
    Name::Meta { span: Span::dummy(), number, ty: Box::new(ty) }
}

fn bound(index: usize) -> Term {
    Term::Var { name: Name::Bound { span: Span::dummy(), index, repr: "_".to_string() } }
}

fn app(f: Term, a: Term) -> Term {
    Term::App { span: Span::dummy(), fun: Box::new(f), arg: Box::new(a) }
}

fn lam(ty: Term, body: Term) -> Term {
    Term::Lambda {
        span: Span::dummy(),
        binder: Binder::new(Name::Bound { span: Span::dummy(), index: 0, repr: "_".to_string() }, ty),
        body: Box::new(body),
    }
}

fn pi(ty: Term, body: Term) -> Term {
    Term::Forall {
        span: Span::dummy(),
        binder: Binder::new(Name::Bound { span: Span::dummy(), index: 0, repr: "_".to_string() }, ty),
        term: Box::new(body),
    }
}

fn nat_data() -> Data {
    Data {
        span: Span::dummy(),
        name: Name::from_str("Nat"),
        parameters: vec![],
        ty: Term::Type,
        ctors: vec![
            (Name::from_str("zero"), global("Nat")),
            (Name::from_str("succ"), pi(global("Nat"), global("Nat"))),
        ],
    }
}

fn list_data() -> Data {
    // inductive List (A : Type) : Type | nil : List A | cons : A -> List A -> List A
    let list_a = app(global("List"), bound(0));
    Data {
        span: Span::dummy(),
        name: Name::from_str("List"),
        parameters: vec![local(0, "A", Term::Type)],
        ty: pi(Term::Type, Term::Type),
        ctors: vec![
            (Name::from_str("nil"), pi(Term::Type, list_a.clone())),
            (
                Name::from_str("cons"),
                pi(Term::Type, pi(bound(0), pi(app(global("List"), bound(1)), app(global("List"), bound(2))))),
            ),
        ],
    }
}

fn rec() -> Term {
    Term::Var { name: qualified(&["Nat", "rec"]) }
}

#[test]
fn locals_are_fresh_whatever_their_printed_form() {
    let mut cx = TyCtxt::empty();
    let a = cx.local_with_repr("x".to_string(), Term::Type);
    let b = cx.local_with_repr("x".to_string(), Term::Type);
    assert_ne!(a, b);
    assert_eq!(cx.local_counter, 2);
    let c = cx.local(&Binder::new(a.clone(), global("Nat")));
    match &c {
        Name::Local { number, repr, ty, .. } => {
            assert_eq!(*number, 2);
            assert_eq!(repr, "x");
            assert_eq!(**ty, global("Nat"));
        },
        _ => panic!("a local"),
    }
}

#[test]
fn fresh_local_fails_when_the_supply_is_used_up() {
    let mut cx = TyCtxt::empty();
    cx.local_counter = usize::MAX;
    assert!(matches!(cx.fresh_local("x".to_string(), Term::Type), Err(Error::OutOfNames)));
    assert_eq!(cx.local_counter, usize::MAX);
    cx.local_counter = usize::MAX - 1;
    assert!(cx.fresh_local("x".to_string(), Term::Type).is_ok());
}

#[test]
fn declaring_a_datatype_declares_its_constructors_and_its_recursor() {
    let mut cx = TyCtxt::empty();
    cx.declare_datatype(&nat_data()).unwrap();
    assert!(cx.in_scope(&Name::from_str("Nat")));
    assert!(cx.in_scope(&Name::from_str("zero")));
    assert!(cx.in_scope(&Name::from_str("succ")));
    assert!(cx.in_scope(&qualified(&["Nat", "rec"])));
    assert!(!cx.in_scope(&Name::from_str("Bool")));
    assert!(!cx.in_scope(&local(0, "Nat", Term::Type)));
    assert_eq!(cx.global_type(&Name::from_str("succ")), Some(pi(global("Nat"), global("Nat"))));
    assert_eq!(cx.global_type(&Name::from_str("Bool")), None);
}

#[test]
fn the_recursor_of_nat_is_the_dependent_eliminator() {
    let mut cx = TyCtxt::empty();
    cx.declare_datatype(&nat_data()).unwrap();
    let ty = cx.global_type(&qualified(&["Nat", "rec"])).unwrap();
    // forall (C : Nat -> Type) (z : C zero) (s : forall n, C n -> C (succ n)) (n : Nat), C n
    let expected = pi(
        pi(global("Nat"), Term::Type),
        pi(
            app(bound(0), global("zero")),
            pi(
                pi(global("Nat"), pi(app(bound(2), bound(0)), app(bound(3), app(global("succ"), bound(1))))),
                pi(global("Nat"), app(bound(3), bound(0))),
            ),
        ),
    );
    assert_eq!(ty, expected);
}

#[test]
fn the_recursor_of_a_datatype_with_a_parameter_takes_the_parameter_first() {
    let mut cx = TyCtxt::empty();
    cx.local_counter = 1;
    cx.declare_datatype(&list_data()).unwrap();
    let ty = cx.global_type(&qualified(&["List", "rec"])).unwrap();
    let list_of = |a: Term| app(global("List"), a);
    // forall (A : Type) (C : List A -> Type) (n : C (nil A))
    //   (c : forall (x : A) (xs : List A), C xs -> C (cons A x xs)) (l : List A), C l
    let expected = pi(
        Term::Type,
        pi(
            pi(list_of(bound(0)), Term::Type),
            pi(
                app(bound(0), app(global("nil"), bound(1))),
                pi(
                    pi(
                        bound(2),
                        pi(
                            list_of(bound(3)),
                            pi(
                                app(bound(3), bound(0)),
                                app(bound(4), app(app(app(global("cons"), bound(5)), bound(2)), bound(1))),
                            ),
                        ),
                    ),
                    pi(list_of(bound(3)), app(bound(3), bound(0))),
                ),
            ),
        ),
    );
    assert_eq!(ty, expected);
    let i = cx.find(&qualified(&["List", "rec"])).unwrap();
    match &cx.declarations[i].kind {
        Kind::Recursor { params, ctors, .. } => {
            assert_eq!(*params, 1);
            assert_eq!(ctors.len(), 2);
            assert_eq!(ctors[0].fields, 0);
            assert_eq!(ctors[1].fields, 2);
            assert_eq!(ctors[1].recursive, vec![false, true]);
        },
        other => panic!("expected a recursor, got {:?}", other),
    }
}

#[test]
fn a_duplicate_declaration_is_refused_and_declares_nothing() {
    let mut cx = TyCtxt::empty();
    cx.declare_datatype(&nat_data()).unwrap();
    let declared = cx.declarations.len();
    match cx.declare_datatype(&nat_data()) {
        Err(Error::DuplicateDeclaration(n)) => assert_eq!(n, Name::from_str("Nat")),
        other => panic!("expected a duplicate, got {:?}", other),
    }
    assert_eq!(cx.declarations.len(), declared);
    let mut other = nat_data();
    other.name = Name::from_str("Nat2");
    match cx.declare_datatype(&other) {
        Err(Error::DuplicateDeclaration(n)) => assert_eq!(n, Name::from_str("zero")),
        other => panic!("expected a duplicate, got {:?}", other),
    }
    assert_eq!(cx.declarations.len(), declared);
}

#[test]
fn a_datatype_needs_a_qualified_name() {
    let mut cx = TyCtxt::empty();
    let mut d = nat_data();
    d.name = local(0, "Nat", Term::Type);
    assert!(matches!(cx.declare_datatype(&d), Err(Error::UnknownVariable(_))));
}

#[test]
fn declaring_a_datatype_without_locals_left_fails() {
    let mut cx = TyCtxt::empty();
    cx.local_counter = usize::MAX - 3;
    assert!(matches!(cx.declare_datatype(&nat_data()), Err(Error::OutOfNames)));
    assert!(cx.declarations.is_empty());
    assert_eq!(cx.local_counter, usize::MAX - 3);
}

#[test]
fn beta_reduction() {
    let cx = TyCtxt::empty();
    let t = app(app(lam(Term::Type, lam(bound(1), bound(0))), global("Nat")), global("zero"));
    assert!(cx.is_bi_reducible(&t));
    assert_eq!(cx.eval(&t).unwrap(), global("zero"));
    assert!(!cx.is_bi_reducible(&global("zero")));
    assert_eq!(cx.eval(&global("zero")).unwrap(), global("zero"));
    assert!(!cx.is_bi_reducible(&lam(Term::Type, bound(0))));
}

#[test]
fn definitions_unfold_unless_they_mention_themselves() {
    let mut cx = TyCtxt::empty();
    cx.declare_def(&Function {
        name: Name::from_str("id"),
        args: vec![],
        ret_ty: pi(Term::Type, pi(bound(0), bound(1))),
        body: lam(Term::Type, lam(bound(0), bound(0))),
    });
    cx.declare_def(&Function {
        name: Name::from_str("loop"),
        args: vec![],
        ret_ty: global("Nat"),
        body: app(global("succ"), global("loop")),
    });
    let t = app(app(global("id"), global("Nat")), global("zero"));
    assert!(cx.is_bi_reducible(&t));
    assert_eq!(cx.eval(&t).unwrap(), global("zero"));
    assert!(!cx.is_bi_reducible(&global("loop")));
    assert_eq!(cx.eval(&global("loop")).unwrap(), global("loop"));
    let defs = cx.definitions();
    assert_eq!(defs.len(), 2);
    assert_eq!(defs[0].reduction, Reduction::Reducible);
    assert_eq!(defs[1].reduction, Reduction::Irreducible);
    assert!(cx.head_reducible(&Name::from_str("id")));
    assert!(!cx.head_reducible(&Name::from_str("loop")));
}

#[test]
fn a_recursor_reduces_on_a_constructor() {
    let mut cx = TyCtxt::empty();
    cx.declare_datatype(&nat_data()).unwrap();
    let on = |n: Term| app(app(app(app(rec(), global("C")), global("z")), global("s")), n);
    // Nat.rec C z s zero  ~>  z
    assert_eq!(cx.eval(&on(global("zero"))).unwrap(), global("z"));
    // Nat.rec C z s (succ n)  ~>  s n (Nat.rec C z s n)
    let n = local(0, "n", global("Nat")).to_term();
    let step = cx.step(1, &on(app(global("succ"), n.clone()))).unwrap();
    assert_eq!(step, app(app(global("s"), n.clone()), on(n.clone())));
    // with too few arguments, or on a variable, nothing happens
    assert!(!cx.is_bi_reducible(&app(app(app(rec(), global("C")), global("z")), global("s"))));
    assert!(!cx.is_bi_reducible(&on(n)));
}

#[test]
fn a_recursor_reduces_its_scrutinee_first() {
    let mut cx = TyCtxt::empty();
    cx.declare_datatype(&nat_data()).unwrap();
    let on = |n: Term| app(app(app(app(rec(), global("C")), global("z")), global("s")), n);
    let redex = app(lam(global("Nat"), bound(0)), global("zero"));
    assert_eq!(cx.step(1, &on(redex.clone())).unwrap(), on(global("zero")));
    assert!(cx.step(0, &on(redex.clone())).is_none());
    assert_eq!(cx.eval(&on(redex)).unwrap(), global("z"));
}

#[test]
fn a_recursor_passes_further_arguments_on() {
    let mut cx = TyCtxt::empty();
    cx.declare_datatype(&nat_data()).unwrap();
    let t = app(app(app(app(app(rec(), global("C")), global("z")), global("s")), global("zero")), global("more"));
    assert_eq!(cx.eval(&t).unwrap(), app(global("z"), global("more")));
}

#[test]
fn a_term_waits_for_the_metavariable_that_blocks_its_recursor() {
    let mut cx = TyCtxt::empty();
    cx.declare_datatype(&nat_data()).unwrap();
    let m = meta(4, global("Nat"));
    let t = app(app(app(app(rec(), global("C")), global("z")), global("s")), m.to_term());
    assert_eq!(cx.is_stuck(&t), Some(m.clone()));
    assert_eq!(cx.is_stuck(&app(m.to_term(), global("a"))), Some(m));
    assert_eq!(cx.is_stuck(&global("zero")), None);
}

#[test]
fn evaluation_gives_up_at_the_limit() {
    let cx = TyCtxt::empty();
    // (fun x => x x) (fun x => x x)
    let w = lam(Term::Type, app(bound(0), bound(0)));
    let omega = app(w.clone(), w);
    match cx.eval(&omega) {
        Err(Error::ReductionLimit(t)) => assert_eq!(t, omega),
        other => panic!("expected the limit, got {:?}", other),
    }
}

#[test]
fn types_are_inferred_with_their_constraints() {
    let mut cx = TyCtxt::empty();
    cx.declare_datatype(&nat_data()).unwrap();
    let t = cx.type_infer_term(&Term::Type).unwrap();
    assert_eq!(t.ty, Term::Type);
    assert!(t.constraints.is_empty());
    let t = cx.type_infer_term(&global("succ")).unwrap();
    assert_eq!(t.ty, pi(global("Nat"), global("Nat")));
    let x = local(0, "x", global("Nat"));
    assert_eq!(cx.type_infer_term(&x.to_term()).unwrap().ty, global("Nat"));
    let m = meta(0, Term::Type);
    assert_eq!(cx.type_infer_term(&m.to_term()).unwrap().ty, Term::Type);
    let unit = Term::Literal { span: Span::dummy(), lit: Literal::Unit };
    assert_eq!(cx.type_infer_term(&unit).unwrap().ty, global("Unit"));
    let three = Term::Literal { span: Span::dummy(), lit: Literal::Int(3) };
    assert_eq!(cx.type_infer_term(&three).unwrap().ty, global("Int"));
}

#[test]
fn an_application_constrains_the_argument() {
    let mut cx = TyCtxt::empty();
    cx.declare_datatype(&nat_data()).unwrap();
    let t = Term::App { span: Span::new(4, 13), fun: Box::new(global("succ")), arg: Box::new(global("zero")) };
    let typing = cx.type_infer_term(&t).unwrap();
    assert_eq!(typing.ty, global("Nat"));
    assert_eq!(typing.constraints.len(), 1);
    match &typing.constraints[0] {
        Constraint::Unification(a, b, Justification::Asserted(AssertedBy::Application(span, f, arg))) => {
            assert_eq!(a, &global("Nat"));
            assert_eq!(b, &global("Nat"));
            assert_eq!(*span, Span::new(4, 13));
            assert_eq!(f, &pi(global("Nat"), global("Nat")));
            assert_eq!(arg, &global("Nat"));
        },
        other => panic!("expected an application constraint, got {:?}", other),
    }
}

#[test]
fn the_type_of_a_dependent_application_mentions_the_argument() {
    let mut cx = TyCtxt::empty();
    cx.declare_extern(&Extern {
        span: Span::dummy(),
        name: Name::from_str("id"),
        term: pi(Term::Type, pi(bound(0), bound(1))),
    });
    cx.declare_extern(&Extern { span: Span::dummy(), name: Name::from_str("Nat"), term: Term::Type });
    let typing = cx.type_infer_term(&app(global("id"), global("Nat"))).unwrap();
    assert_eq!(typing.ty, pi(global("Nat"), global("Nat")));
}

#[test]
fn a_lambda_has_a_function_type() {
    let mut cx = TyCtxt::empty();
    cx.declare_datatype(&nat_data()).unwrap();
    let typing = cx.type_infer_term(&lam(global("Nat"), app(global("succ"), bound(0)))).unwrap();
    assert_eq!(typing.ty, pi(global("Nat"), global("Nat")));
    let typing = cx.type_infer_term(&pi(global("Nat"), global("Nat"))).unwrap();
    assert_eq!(typing.ty, Term::Type);
    assert_eq!(typing.constraints.len(), 2);
}

#[test]
fn inference_errors() {
    let mut cx = TyCtxt::empty();
    cx.declare_datatype(&nat_data()).unwrap();
    match cx.type_infer_term(&global("nope")) {
        Err(Error::UnknownVariable(n)) => assert_eq!(n, Name::from_str("nope")),
        other => panic!("expected an unknown variable, got {:?}", other.map(|t| t.ty)),
    }
    match cx.type_infer_term(&bound(0)) {
        Err(Error::UnboundIndex(_)) => {},
        other => panic!("expected an unbound index, got {:?}", other.map(|t| t.ty)),
    }
    let t = Term::App { span: Span::new(1, 2), fun: Box::new(global("zero")), arg: Box::new(global("zero")) };
    match cx.type_infer_term(&t) {
        Err(Error::ApplicationMismatch(span, f, a)) => {
            assert_eq!(span, Span::new(1, 2));
            assert_eq!(f, global("Nat"));
            assert_eq!(a, global("Nat"));
        },
        other => panic!("expected a mismatch, got {:?}", other.map(|t| t.ty)),
    }
    cx.local_counter = usize::MAX;
    assert!(matches!(cx.type_infer_term(&lam(global("Nat"), bound(0))), Err(Error::OutOfNames)));
}

#[test]
fn a_module_is_checked_item_by_item() {
    let mut cx = TyCtxt::empty();
    cx.declare_datatype(&nat_data()).unwrap();
    let one = Function {
        name: Name::from_str("one"),
        args: vec![],
        ret_ty: global("Nat"),
        body: app(global("succ"), global("zero")),
    };
    cx.declare_def(&one);
    let module = Module {
        file_name: "m.hbr".to_string(),
        name: Name::from_str("m"),
        defs: vec![Item::Data(nat_data()), Item::Fn(one)],
        imports: vec![],
    };
    let cs = cx.type_check_module(&module).unwrap();
    // Nat : Type, zero's and succ's types are types (1 + 3 for the arrow), one's type, its body (1 + 1)
    assert_eq!(cs.len(), 1 + 1 + 3 + 1 + 2);
    match cs.last().unwrap() {
        Constraint::Unification(a, b, Justification::Asserted(AssertedBy::ExpectedFound(found, declared))) => {
            assert_eq!(a, &global("Nat"));
            assert_eq!(b, &global("Nat"));
            assert_eq!(found, &global("Nat"));
            assert_eq!(declared, &global("Nat"));
        },
        other => panic!("expected a declaration constraint, got {:?}", other),
    }
}

#[test]
fn a_datatype_cannot_declare_a_name_twice() {
    let mut cx = TyCtxt::empty();
    let mut twice = nat_data();
    twice.ctors.push((Name::from_str("zero"), global("Nat")));
    match cx.declare_datatype(&twice) {
        Err(Error::DuplicateDeclaration(n)) => assert_eq!(n, Name::from_str("zero")),
        other => panic!("expected a duplicate, got {:?}", other),
    }
    let mut own_name = nat_data();
    own_name.ctors.push((Name::from_str("Nat"), global("Nat")));
    match cx.declare_datatype(&own_name) {
        Err(Error::DuplicateDeclaration(n)) => assert_eq!(n, Name::from_str("Nat")),
        other => panic!("expected a duplicate, got {:?}", other),
    }
    let mut recursor = nat_data();
    recursor.ctors.push((qualified(&["Nat", "rec"]), global("Nat")));
    match cx.declare_datatype(&recursor) {
        Err(Error::DuplicateDeclaration(n)) => assert_eq!(n, qualified(&["Nat", "rec"])),
        other => panic!("expected a duplicate, got {:?}", other),
    }
    assert!(cx.declarations.is_empty());
    cx.declare_datatype(&nat_data()).unwrap();
    // each name finds its own declaration
    let i = cx.find(&Name::from_str("succ")).unwrap();
    match &cx.declarations[i].kind {
        Kind::Constructor { datatype, index, fields } => {
            assert_eq!(datatype, &Name::from_str("Nat"));
            assert_eq!(*index, 1);
            assert_eq!(*fields, 1);
        },
        other => panic!("expected a constructor, got {:?}", other),
    }
    // and the name still leads to it when more is declared
    cx.declare_extern(&Extern { span: Span::dummy(), name: Name::from_str("succ"), term: Term::Type });
    assert_eq!(cx.find(&Name::from_str("succ")), Some(i));
}
