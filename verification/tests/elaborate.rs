use hubris::constraint::{AssertedBy, Justification};
use hubris::elaborate::{ElabCx, Error, LocalElabCx};
use hubris::item::Item;
use hubris::solver::{replace_metavars_in_module, Error as SolverError, Solver};
use hubris::span::Span;
use hubris::syntax;
use hubris::term::{Binder, Literal, Name, Term};
use hubris::typeck::{Error as TypeError, SourceMap};

fn name(s: &str) -> syntax::Name {
    syntax::Name::from_str(s)
}

fn name_at(s: &str, lo: usize, hi: usize) -> syntax::Name {
    syntax::Name { span: Span::new(lo, hi), repr: syntax::NameKind::Unqualified(s.to_string()) }
}

fn dotted(parts: &[&str]) -> syntax::Name {
    syntax::Name {
        span: Span::dummy(),
        repr: syntax::NameKind::Qualified(parts.iter().map(|s| s.to_string()).collect()),
    }
}

fn hole() -> syntax::Term {
    syntax::Term::Var { name: syntax::Name { span: Span::dummy(), repr: syntax::NameKind::Placeholder } }
}

fn var(s: &str) -> syntax::Term {
    syntax::Term::Var { name: name(s) }
}

fn sapp(f: syntax::Term, a: syntax::Term) -> syntax::Term {
    syntax::Term::App { span: Span::dummy(), fun: Box::new(f), arg: Box::new(a) }
}

fn binder(s: &str, ty: syntax::Term) -> syntax::Binder {
    syntax::Binder { name: name(s), ty }
}

fn arrow(a: syntax::Term, b: syntax::Term) -> syntax::Term {
    syntax::Term::Forall {
        span: Span::dummy(),
        binders: vec![syntax::Binder {
            name: syntax::Name { span: Span::dummy(), repr: syntax::NameKind::Placeholder },
            ty: a,
        }],
        term: Box::new(b),
    }
}

fn def(n: &str, args: Vec<syntax::Binder>, ty: syntax::Term, body: syntax::Term) -> syntax::Item {
    syntax::Item::Def(syntax::Def { span: Span::dummy(), name: name(n), args, ty, body })
}

fn nat_decl() -> syntax::Item {
    syntax::Item::Inductive(syntax::Inductive {
        span: Span::dummy(),
        name: name("Nat"),
        parameters: vec![],
        ty: syntax::Term::Type,
        ctors: vec![(name("zero"), var("Nat")), (name("succ"), arrow(var("Nat"), var("Nat")))],
    })
}

fn module(items: Vec<syntax::Item>) -> syntax::Module {
    syntax::Module { span: Span::dummy(), name: name("main"), items }
}

fn context(items: Vec<syntax::Item>) -> ElabCx {
    ElabCx::from_module(module(items), SourceMap::new("main.hbr".to_string(), String::new()))
}

fn global(s: &str) -> Term {
    Term::Var { name: Name::from_str(s) }
}

fn bound(index: usize) -> Term {
    Term::Var { name: Name::Bound { span: Span::dummy(), index, repr: "_".to_string() } }
}

fn app(f: Term, a: Term) -> Term {
    Term::App { span: Span::dummy(), fun: Box::new(f), arg: Box::new(a) }
}

fn lam(ty: Term, body: Term) -> Term {
    Term::Lambda {
        span: Span::dummy(),
        binder: Binder::new(Name::Bound { span: Span::dummy(), index: 0, repr: "_".to_string() }, ty),
        body: Box::new(body),
    }
}

fn pi(ty: Term, body: Term) -> Term {
    Term::Forall {
        span: Span::dummy(),
        binder: Binder::new(Name::Bound { span: Span::dummy(), index: 0, repr: "_".to_string() }, ty),
        term: Box::new(body),
    }
}

fn meta_number(t: &Term) -> usize {
    match t.head() {
        Term::Var { name: Name::Meta { number, .. } } => number,
        other => panic!("expected a metavariable at the head, got {:?}", other),
    }
}

#[test]
fn identity_polymorphic_function() {
    // def id (A : Type) (x : A) : A := x
    let id = def("id", vec![binder("A", syntax::Term::Type), binder("x", var("A"))], var("A"), var("x"));
    let mut ecx = context(vec![id]);
    let m = ecx.elaborate_module("main.hbr".to_string()).unwrap();
    assert_eq!(m.defs.len(), 1);
    match &m.defs[0] {
        Item::Fn(f) => {
            assert_eq!(f.name, Name::from_str("id"));
            assert_eq!(f.args.len(), 2);
            assert_eq!(f.body, lam(Term::Type, lam(bound(0), bound(0))));
            assert_eq!(f.ret_ty, pi(Term::Type, pi(bound(0), bound(1))));
            assert!(!f.body.has_meta());
            assert!(!f.ret_ty.has_meta());
        },
        other => panic!("expected a definition, got {:?}", other),
    }
    assert_eq!(ecx.metavar_counter, 0);
    assert!(ecx.ty_cx.in_scope(&Name::from_str("id")));
    let constraints = ecx.constraints.clone();
    let solver = Solver::new(&mut ecx.ty_cx, constraints).unwrap();
    assert!(solver.solve().unwrap().is_empty());
}

#[test]
fn placeholder_inference() {
    // def id (A : Type) (x : A) : A := x
    // extern three : Nat
    // def use_id : Nat := id _ three
    let id = def("id", vec![binder("A", syntax::Term::Type), binder("x", var("A"))], var("A"), var("x"));
    let three = syntax::Item::Extern(syntax::Extern { span: Span::dummy(), name: name("three"), term: var("Nat") });
    let use_id = def("use_id", vec![], var("Nat"), sapp(sapp(var("id"), hole()), var("three")));
    let mut ecx = context(vec![nat_decl(), id, three, use_id]);
    let m = ecx.elaborate_module("main.hbr".to_string()).unwrap();
    let body = match &m.defs[3] {
        Item::Fn(f) => f.body.clone(),
        other => panic!("expected a definition, got {:?}", other),
    };
    assert!(body.has_meta());
    let hole_meta = match &body {
        Term::App { fun, .. } => match &**fun {
            Term::App { arg, .. } => meta_number(arg),
            other => panic!("expected an application, got {:?}", other),
        },
        other => panic!("expected an application, got {:?}", other),
    };
    let constraints = ecx.constraints.clone();
    let solver = Solver::new(&mut ecx.ty_cx, constraints).unwrap();
    let solutions = solver.solve().unwrap();
    assert_eq!(solutions.get(&hole_meta).unwrap().0, global("Nat"));
    let explicit = replace_metavars_in_module(&m, &solutions).unwrap();
    match &explicit.defs[3] {
        Item::Fn(f) => {
            assert_eq!(f.body, app(app(global("id"), global("Nat")), global("three")));
        },
        other => panic!("expected a definition, got {:?}", other),
    }
}

#[test]
fn placeholder_inference_from_a_literal() {
    let id = def("id", vec![binder("A", syntax::Term::Type), binder("x", var("A"))], var("A"), var("x"));
    let three = syntax::Term::Literal { span: Span::dummy(), lit: syntax::Literal::Int(3) };
    let use_id = def("use_id", vec![], hole(), sapp(sapp(var("id"), hole()), three));
    let mut ecx = context(vec![id, use_id]);
    let m = ecx.elaborate_module("main.hbr".to_string()).unwrap();
    let constraints = ecx.constraints.clone();
    let solver = Solver::new(&mut ecx.ty_cx, constraints).unwrap();
    let solutions = solver.solve().unwrap();
    let explicit = replace_metavars_in_module(&m, &solutions).unwrap();
    match &explicit.defs[1] {
        Item::Fn(f) => {
            let lit = Term::Literal { span: Span::dummy(), lit: Literal::Int(3) };
            assert_eq!(f.body, app(app(global("id"), global("Int")), lit));
            assert_eq!(f.ret_ty, global("Int"));
        },
        other => panic!("expected a definition, got {:?}", other),
    }
}

#[test]
fn inductive_with_recursor_pre_registration() {
    let mut ecx = context(vec![nat_decl()]);
    let m = ecx.elaborate_module("main.hbr".to_string()).unwrap();
    match &m.defs[0] {
        Item::Data(d) => {
            assert_eq!(d.name, Name::from_str("Nat"));
            assert_eq!(d.ty, Term::Type);
            assert_eq!(d.ctors.len(), 2);
            assert_eq!(d.ctors[0], (Name::from_str("zero"), global("Nat")));
            assert_eq!(d.ctors[1], (Name::from_str("succ"), pi(global("Nat"), global("Nat"))));
        },
        other => panic!("expected a datatype, got {:?}", other),
    }
    let rec = Name::from_str("Nat").in_scope("rec".to_string()).unwrap();
    for n in [Name::from_str("Nat"), Name::from_str("zero"), Name::from_str("succ"), rec.clone()] {
        assert!(ecx.ty_cx.in_scope(&n));
    }
    let expected = pi(
        pi(global("Nat"), Term::Type),
        pi(
            app(bound(0), global("zero")),
            pi(
                pi(global("Nat"), pi(app(bound(2), bound(0)), app(bound(3), app(global("succ"), bound(1))))),
                pi(global("Nat"), app(bound(3), bound(0))),
            ),
        ),
    );
    assert_eq!(ecx.ty_cx.global_type(&rec).unwrap(), expected);
    assert_eq!(ecx.constructors, vec![name("zero"), name("succ")]);
}

#[test]
fn the_recursor_may_be_named_in_the_module_that_declares_the_datatype() {
    let uses = def("r", vec![], hole(), syntax::Term::Var { name: dotted(&["Nat", "rec"]) });
    let mut ecx = context(vec![nat_decl(), uses]);
    let m = ecx.elaborate_module("main.hbr".to_string()).unwrap();
    match &m.defs[1] {
        Item::Fn(f) => assert_eq!(f.body, Term::Var { name: Name::from_str("Nat").in_scope("rec".to_string()).unwrap() }),
        other => panic!("expected a definition, got {:?}", other),
    }
}

#[test]
fn pattern_match_desugaring() {
    // def f (n : Nat) (a : Nat) (b : Nat) : Nat := match n { zero => a; succ k => b }
    let cases = vec![
        syntax::Case { span: Span::new(1, 2), pattern: syntax::Pattern::Name(name("zero")), rhs: var("a") },
        syntax::Case {
            span: Span::new(3, 4),
            pattern: syntax::Pattern::Constructor(name("succ"), vec![syntax::Pattern::Name(name("k"))]),
            rhs: var("b"),
        },
    ];
    let body = syntax::Term::Match { span: Span::dummy(), scrutinee: Box::new(var("n")), cases };
    let f = def(
        "f",
        vec![binder("n", var("Nat")), binder("a", var("Nat")), binder("b", var("Nat"))],
        var("Nat"),
        body,
    );
    let mut ecx = context(vec![nat_decl(), f]);
    let m = ecx.elaborate_module("main.hbr".to_string()).unwrap();
    let body = match &m.defs[1] {
        Item::Fn(f) => f.body.clone(),
        other => panic!("expected a definition, got {:?}", other),
    };
    // under the three lambdas: Nat.rec ?motive a (fun k ih => b) n
    let inner = match body {
        Term::Lambda { body, .. } => match *body {
            Term::Lambda { body, .. } => match *body {
                Term::Lambda { body, .. } => *body,
                other => panic!("expected a lambda, got {:?}", other),
            },
            other => panic!("expected a lambda, got {:?}", other),
        },
        other => panic!("expected a lambda, got {:?}", other),
    };
    let (head, args) = inner.uncurry();
    assert_eq!(head, Term::Var { name: Name::from_str("Nat").in_scope("rec".to_string()).unwrap() });
    assert_eq!(args.len(), 4);
    let motive = args[0].clone();
    assert!(motive.head_is_meta());
    assert_eq!(motive.args(), vec![bound(2), bound(1), bound(0)]);
    assert_eq!(args[1], bound(1));
    // the branch for succ binds the field and the induction hypothesis, whose type is the motive at the field
    let motive_at_field = app(app(app(app(motive.head(), bound(3)), bound(2)), bound(1)), bound(0));
    assert_eq!(args[2], lam(global("Nat"), lam(motive_at_field, bound(2))));
    // the motive gives a type for every value of the scrutinee's type
    match motive.head() {
        Term::Var { name: Name::Meta { ty, .. } } => {
            assert_eq!(*ty, pi(global("Nat"), pi(global("Nat"), pi(global("Nat"), pi(global("Nat"), Term::Type)))));
        },
        other => panic!("expected a metavariable, got {:?}", other),
    }
    assert_eq!(args[3], bound(2));
}

#[test]
fn a_match_needs_a_case_for_each_constructor() {
    let cases = vec![syntax::Case { span: Span::new(1, 2), pattern: syntax::Pattern::Name(name("zero")), rhs: var("n") }];
    let body = syntax::Term::Match { span: Span::dummy(), scrutinee: Box::new(var("n")), cases };
    let f = def("f", vec![binder("n", var("Nat"))], var("Nat"), body);
    let mut ecx = context(vec![nat_decl(), f]);
    match ecx.elaborate_module("main.hbr".to_string()) {
        Err(Error::Many(es)) => {
            assert_eq!(es.len(), 1);
            match &es[0] {
                Error::MissingCase(c) => assert_eq!(c, &Name::from_str("succ")),
                other => panic!("expected a missing case, got {:?}", other),
            }
        },
        other => panic!("expected an error, got {:?}", other),
    }
}

#[test]
fn a_match_refuses_redundant_and_nested_cases() {
    let zero = |lo: usize| syntax::Case {
        span: Span::new(lo, lo + 1),
        pattern: syntax::Pattern::Name(name("zero")),
        rhs: var("n"),
    };
    let succ = |p: syntax::Pattern| syntax::Case {
        span: Span::new(7, 8),
        pattern: syntax::Pattern::Constructor(name("succ"), vec![p]),
        rhs: var("n"),
    };
    let run = |cases: Vec<syntax::Case>| {
        let body = syntax::Term::Match { span: Span::new(20, 30), scrutinee: Box::new(var("n")), cases };
        let f = def("f", vec![binder("n", var("Nat"))], var("Nat"), body);
        let mut ecx = context(vec![nat_decl(), f]);
        match ecx.elaborate_module("main.hbr".to_string()) {
            Err(Error::Many(mut es)) => es.remove(0),
            other => panic!("expected an error, got {:?}", other),
        }
    };
    let k = syntax::Pattern::Name(name("k"));
    assert!(matches!(run(vec![zero(1), zero(3), succ(k)]), Error::RedundantCase(s) if s == Span::new(3, 4)));
    let nested = syntax::Pattern::Constructor(name("succ"), vec![syntax::Pattern::Placeholder]);
    assert!(matches!(run(vec![zero(1), succ(nested)]), Error::InvalidPattern(s) if s == Span::new(7, 8)));
    let stranger = syntax::Case { span: Span::new(5, 6), pattern: syntax::Pattern::Name(name("k")), rhs: var("n") };
    assert!(matches!(
        run(vec![zero(1), succ(syntax::Pattern::Placeholder), stranger]),
        Error::RedundantCase(s) if s == Span::new(5, 6)
    ));
    // a constructor without fields under a constructor is a nested pattern, not a variable
    let nullary = syntax::Pattern::Name(name("zero"));
    assert!(matches!(run(vec![zero(1), succ(nullary)]), Error::InvalidPattern(s) if s == Span::new(7, 8)));
    let bare = syntax::Case { span: Span::new(9, 10), pattern: syntax::Pattern::Placeholder, rhs: var("n") };
    assert!(matches!(run(vec![bare]), Error::InvalidPattern(s) if s == Span::new(9, 10)));
    let too_few = syntax::Case { span: Span::new(11, 12), pattern: syntax::Pattern::Name(name("succ")), rhs: var("n") };
    assert!(matches!(run(vec![zero(1), too_few]), Error::InvalidPattern(s) if s == Span::new(11, 12)));
}

#[test]
fn a_match_on_something_that_is_no_datatype_is_refused() {
    let cases = vec![syntax::Case { span: Span::new(1, 2), pattern: syntax::Pattern::Name(name("zero")), rhs: var("n") }];
    let body = syntax::Term::Match { span: Span::new(20, 30), scrutinee: Box::new(var("n")), cases };
    let f = def("f", vec![binder("n", syntax::Term::Type)], syntax::Term::Type, body);
    let mut ecx = context(vec![nat_decl(), f]);
    match ecx.elaborate_module("main.hbr".to_string()) {
        Err(Error::Many(es)) => assert!(matches!(es[0], Error::NotInductive(s) if s == Span::new(20, 30))),
        other => panic!("expected an error, got {:?}", other),
    }
}

#[test]
fn type_mismatch() {
    // def bad : Nat := Type
    let bad = def("bad", vec![], syntax::Term::Var { name: name_at("Nat", 10, 13) }, syntax::Term::Type);
    let mut ecx = context(vec![nat_decl(), bad]);
    ecx.elaborate_module("main.hbr".to_string()).unwrap();
    let constraints = ecx.constraints.clone();
    match Solver::new(&mut ecx.ty_cx, constraints) {
        Err(SolverError::Justification(Justification::Asserted(AssertedBy::ExpectedFound(found, declared)))) => {
            assert_eq!(found, Term::Type);
            assert_eq!(declared, global("Nat"));
            assert_eq!(declared.get_span(), Span::new(10, 13));
        },
        Err(other) => panic!("expected a mismatch, got {:?}", other),
        Ok(_) => panic!("expected a mismatch"),
    }
}

#[test]
fn error_accumulation() {
    let one = def("one", vec![], syntax::Term::Type, syntax::Term::Var { name: name_at("nope", 1, 5) });
    let two = def("two", vec![], syntax::Term::Type, syntax::Term::Var { name: name_at("nada", 7, 11) });
    let fine = def("fine", vec![], syntax::Term::Type, syntax::Term::Type);
    let mut ecx = context(vec![one, fine, two]);
    match ecx.elaborate_module("main.hbr".to_string()) {
        Err(Error::Many(es)) => {
            assert_eq!(es.len(), 2);
            match (&es[0], &es[1]) {
                (Error::UnknownVariable(a), Error::UnknownVariable(b)) => {
                    assert_eq!(a, &name("nope"));
                    assert_eq!(a.span, Span::new(1, 5));
                    assert_eq!(b, &name("nada"));
                    assert_eq!(b.span, Span::new(7, 11));
                },
                other => panic!("expected two unknown variables, got {:?}", other),
            }
        },
        other => panic!("expected the errors of both items, got {:?}", other),
    }
    // the item that did not fail was declared all the same
    assert!(ecx.ty_cx.in_scope(&Name::from_str("fine")));
}

#[test]
fn items_see_the_items_before_them() {
    let a = def("a", vec![], syntax::Term::Type, syntax::Term::Type);
    let b = def("b", vec![], syntax::Term::Type, var("a"));
    let early = def("early", vec![], syntax::Term::Type, var("late"));
    let late = def("late", vec![], syntax::Term::Type, syntax::Term::Type);
    assert!(context(vec![a, b]).elaborate_module("m".to_string()).is_ok());
    assert!(matches!(context(vec![early, late]).elaborate_module("m".to_string()), Err(Error::Many(_))));
}

#[test]
fn the_module_records_its_path_name_and_imports() {
    let items = vec![
        syntax::Item::Comment("a comment".to_string()),
        syntax::Item::Import(dotted(&["std", "nat"])),
        syntax::Item::Import(name("list")),
    ];
    let mut ecx = context(items);
    let m = ecx.elaborate_module("dir/main.hbr".to_string()).unwrap();
    assert_eq!(m.file_name, "dir/main.hbr");
    assert_eq!(m.name, Name::from_str("main"));
    assert!(m.defs.is_empty());
    assert_eq!(m.imports.len(), 2);
    assert_eq!(m.imports[0], Name::from_str("std").in_scope("nat".to_string()).unwrap());
    assert_eq!(m.imports[1], Name::from_str("list"));
    assert_eq!(ecx.get_source_map().file_name, "main.hbr");
}

#[test]
fn an_import_of_a_placeholder_is_invalid() {
    let bad = syntax::Name { span: Span::dummy(), repr: syntax::NameKind::Placeholder };
    let mut ecx = context(vec![syntax::Item::Import(bad.clone())]);
    assert!(matches!(ecx.elaborate_module("m".to_string()), Err(Error::InvalidImport)));
    assert!(matches!(ecx.elaborate_import(&bad), Err(Error::InvalidImport)));
    assert_eq!(ecx.elaborate_import(&name("list")).unwrap(), Name::from_str("list"));
}

#[test]
fn a_global_name_must_be_plain() {
    let mut ecx = context(vec![]);
    assert!(matches!(ecx.elaborate_global_name(&dotted(&["a", "b"])), Err(Error::UnexpectedQualifiedName)));
    let placeholder = syntax::Name { span: Span::dummy(), repr: syntax::NameKind::Placeholder };
    assert!(matches!(ecx.elaborate_global_name(&placeholder), Err(Error::UnexpectedQualifiedName)));
    let n = ecx.elaborate_global_name(&name_at("f", 2, 3)).unwrap();
    assert_eq!(n, Name::from_str("f"));
    assert_eq!(ecx.globals.len(), 1);
    let qualified = syntax::Item::Def(syntax::Def {
        span: Span::dummy(),
        name: dotted(&["a", "b"]),
        args: vec![],
        ty: syntax::Term::Type,
        body: syntax::Term::Type,
    });
    match context(vec![qualified]).elaborate_module("m".to_string()) {
        Err(Error::Many(es)) => assert!(matches!(es[0], Error::UnexpectedQualifiedName)),
        other => panic!("expected an error, got {:?}", other),
    }
}

#[test]
fn a_duplicate_datatype_ends_the_module() {
    let mut ecx = context(vec![nat_decl(), nat_decl()]);
    match ecx.elaborate_module("m".to_string()) {
        Err(Error::TypeCk(TypeError::DuplicateDeclaration(n))) => assert_eq!(n, Name::from_str("Nat")),
        other => panic!("expected a duplicate, got {:?}", other),
    }
}

#[test]
fn terms_carry_over() {
    let mut ecx = context(vec![]);
    let mut lcx = LocalElabCx::from_elab_cx(&mut ecx);
    assert_eq!(lcx.elaborate_term(&syntax::Term::Type).unwrap(), Term::Type);
    let unit = syntax::Term::Literal { span: Span::new(1, 3), lit: syntax::Literal::Unit };
    match lcx.elaborate_term(&unit).unwrap() {
        Term::Literal { span, lit } => {
            assert_eq!(span, Span::new(1, 3));
            assert_eq!(lit, Literal::Unit);
        },
        other => panic!("expected a literal, got {:?}", other),
    }
    let seven = || syntax::Term::Literal { span: Span::dummy(), lit: syntax::Literal::Int(7) };
    let t = syntax::Term::App { span: Span::new(4, 9), fun: Box::new(seven()), arg: Box::new(seven()) };
    match lcx.elaborate_term(&t).unwrap() {
        Term::App { span, fun, arg } => {
            assert_eq!(span, Span::new(4, 9));
            assert_eq!(*fun, Term::Literal { span: Span::dummy(), lit: Literal::Int(7) });
            assert_eq!(*arg, *fun);
        },
        other => panic!("expected an application, got {:?}", other),
    }
}

#[test]
fn binders_shadow_and_scopes_end() {
    let mut ecx = context(vec![]);
    let mut lcx = LocalElabCx::from_elab_cx(&mut ecx);
    // fun (x : Type) (x : x) => x
    let t = syntax::Term::Lambda {
        span: Span::dummy(),
        args: vec![binder("x", syntax::Term::Type), binder("x", var("x"))],
        body: Box::new(var("x")),
    };
    assert_eq!(lcx.elaborate_term(&t).unwrap(), lam(Term::Type, lam(bound(0), bound(0))));
    assert!(lcx.locals.is_empty());
    assert!(matches!(lcx.elaborate_term(&var("x")), Err(Error::UnknownVariable(_))));
    let dependent = syntax::Term::Forall {
        span: Span::dummy(),
        binders: vec![binder("A", syntax::Term::Type), binder("x", var("A"))],
        term: Box::new(var("A")),
    };
    assert_eq!(lcx.elaborate_term(&dependent).unwrap(), pi(Term::Type, pi(bound(0), bound(1))));
    let qualified = syntax::Term::Lambda {
        span: Span::dummy(),
        args: vec![syntax::Binder { name: dotted(&["a", "b"]), ty: syntax::Term::Type }],
        body: Box::new(syntax::Term::Type),
    };
    assert!(matches!(lcx.elaborate_term(&qualified), Err(Error::UnexpectedQualifiedName)));
}

#[test]
fn enter_scope_binds_in_order() {
    let mut ecx = context(vec![]);
    let mut lcx = LocalElabCx::from_elab_cx(&mut ecx);
    let locals = lcx.enter_scope(&vec![binder("A", syntax::Term::Type), binder("x", var("A"))]).unwrap();
    assert_eq!(locals.len(), 2);
    assert_eq!(lcx.locals_in_order(), locals);
    match &locals[1] {
        Name::Local { number, repr, ty, .. } => {
            assert_eq!(*number, 1);
            assert_eq!(repr, "x");
            assert_eq!(**ty, locals[0].to_term());
        },
        other => panic!("expected a local, got {:?}", other),
    }
    assert_eq!(lcx.elaborate_name(&name("x")).unwrap(), locals[1]);
    lcx.leave_scope(1);
    assert_eq!(lcx.locals_in_order(), vec![locals[0].clone()]);
    lcx.leave_scope(0);
    assert!(lcx.locals.is_empty());
}

#[test]
fn names_resolve_locals_first_then_globals() {
    let mut ecx = context(vec![]);
    ecx.elaborate_global_name(&name("x")).unwrap();
    let mut lcx = LocalElabCx::from_elab_cx(&mut ecx);
    match lcx.elaborate_name(&name_at("x", 5, 6)).unwrap() {
        Name::Qual { span, components } => {
            assert_eq!(span, Span::new(5, 6));
            assert_eq!(components, vec!["x".to_string()]);
        },
        other => panic!("expected a global, got {:?}", other),
    }
    lcx.enter_scope(&vec![binder("x", syntax::Term::Type)]).unwrap();
    assert!(lcx.elaborate_name(&name("x")).unwrap().is_local());
    match lcx.elaborate_name(&name("y")) {
        Err(Error::UnknownVariable(n)) => assert_eq!(n, name("y")),
        other => panic!("expected an unknown variable, got {:?}", other),
    }
}

#[test]
fn a_placeholder_becomes_a_metavariable_in_context() {
    let mut ecx = context(vec![]);
    let mut lcx = LocalElabCx::from_elab_cx(&mut ecx);
    let locals = lcx.enter_scope(&vec![binder("A", syntax::Term::Type), binder("x", var("A"))]).unwrap();
    let t = lcx.elaborate_term(&hole()).unwrap();
    // ?1 A x  with  ?1 : forall (A : Type) (x : A), ?0   and   ?0 : Type
    assert_eq!(t.args(), vec![locals[0].to_term(), locals[1].to_term()]);
    match t.head() {
        Term::Var { name: Name::Meta { number, ty, .. } } => {
            assert_eq!(number, 1);
            let ty_meta = Name::Meta { span: Span::dummy(), number: 0, ty: Box::new(Term::Type) };
            assert_eq!(*ty, pi(Term::Type, pi(bound(0), ty_meta.to_term())));
        },
        other => panic!("expected a metavariable, got {:?}", other),
    }
    assert_eq!(lcx.cx.metavar_counter, 2);
    let placeholder = syntax::Name { span: Span::dummy(), repr: syntax::NameKind::Placeholder };
    // as a name, a placeholder is the same metavariable in context, not yet applied
    match lcx.elaborate_name(&placeholder).unwrap() {
        Name::Meta { number, ty, .. } => {
            assert_eq!(number, 3);
            let ty_meta = Name::Meta { span: Span::dummy(), number: 2, ty: Box::new(Term::Type) };
            assert_eq!(*ty, pi(Term::Type, pi(bound(0), ty_meta.to_term())));
        },
        other => panic!("expected a metavariable, got {:?}", other),
    }
    assert_eq!(lcx.cx.metavar_counter, 4);
    let closed = lcx.meta_in_context(Term::Type).unwrap();
    assert_eq!(closed.args().len(), 2);
}

#[test]
fn metavariables_run_out() {
    let mut ecx = context(vec![]);
    ecx.metavar_counter = usize::MAX;
    assert!(matches!(ecx.meta(Term::Type), Err(Error::TypeCk(TypeError::OutOfNames))));
    assert!(matches!(ecx.make_placeholder(), Err(Error::TypeCk(TypeError::OutOfNames))));
    ecx.metavar_counter = usize::MAX - 1;
    assert!(matches!(ecx.make_placeholder(), Err(Error::TypeCk(TypeError::OutOfNames))));
}

#[test]
fn let_becomes_an_applied_lambda() {
    // let x : Nat := zero; y : Nat := succ zero in succ x
    let t = syntax::Term::Let {
        span: Span::dummy(),
        binders: vec![binder("x", var("Nat")), binder("y", var("Nat"))],
        values: vec![var("zero"), sapp(var("succ"), var("zero"))],
        body: Box::new(sapp(var("succ"), var("x"))),
    };
    let f = def("f", vec![], var("Nat"), t);
    let mut ecx = context(vec![nat_decl(), f]);
    let m = ecx.elaborate_module("m".to_string()).unwrap();
    match &m.defs[1] {
        Item::Fn(f) => {
            let expected = app(
                app(lam(global("Nat"), lam(global("Nat"), app(global("succ"), bound(1)))), global("zero")),
                app(global("succ"), global("zero")),
            );
            assert_eq!(f.body, expected);
            assert_eq!(ecx.ty_cx.eval(&f.body).unwrap(), app(global("succ"), global("zero")));
        },
        other => panic!("expected a definition, got {:?}", other),
    }
}

#[test]
fn constructor_types_are_closed_over_the_parameters() {
    // inductive Box (A : Type) : Type | box : A -> Box A
    let decl = syntax::Item::Inductive(syntax::Inductive {
        span: Span::dummy(),
        name: name("Box"),
        parameters: vec![binder("A", syntax::Term::Type)],
        ty: syntax::Term::Type,
        ctors: vec![(name("box"), arrow(var("A"), sapp(var("Box"), var("A"))))],
    });
    let mut ecx = context(vec![decl]);
    let m = ecx.elaborate_module("m".to_string()).unwrap();
    match &m.defs[0] {
        Item::Data(d) => {
            assert_eq!(d.parameters.len(), 1);
            assert_eq!(d.ty, pi(Term::Type, Term::Type));
            assert_eq!(d.ctors[0].1, pi(Term::Type, pi(bound(0), app(global("Box"), bound(1)))));
        },
        other => panic!("expected a datatype, got {:?}", other),
    }
}

#[test]
fn elaborate_def_skips_comments_and_imports() {
    let mut ecx = context(vec![]);
    assert!(ecx.elaborate_def(&syntax::Item::Comment("c".to_string())).unwrap().is_none());
    assert!(ecx.elaborate_def(&syntax::Item::Import(name("m"))).unwrap().is_none());
    let ext = syntax::Item::Extern(syntax::Extern { span: Span::new(1, 2), name: name("T"), term: syntax::Term::Type });
    match ecx.elaborate_def(&ext).unwrap() {
        Some(Item::Extern(e)) => {
            assert_eq!(e.span, Span::new(1, 2));
            assert_eq!(e.name, Name::from_str("T"));
            assert_eq!(e.term, Term::Type);
        },
        other => panic!("expected a constant, got {:?}", other),
    }
}

fn free_locals(t: &Term, out: &mut Vec<usize>) {
    match t {
        Term::Var { name: Name::Local { number, .. } } => out.push(*number),
        Term::App { fun, arg, .. } => {
            free_locals(fun, out);
            free_locals(arg, out);
        },
        Term::Forall { binder, term, .. } => {
            free_locals(&binder.ty, out);
            free_locals(term, out);
        },
        Term::Lambda { binder, body, .. } => {
            free_locals(&binder.ty, out);
            free_locals(body, out);
        },
        _ => {},
    }
}

fn item_terms(item: &Item) -> Vec<Term> {
    match item {
        Item::Data(d) => {
            let mut ts = vec![d.ty.clone()];
            ts.extend(d.ctors.iter().map(|c| c.1.clone()));
            ts
        },
        Item::Fn(f) => vec![f.ret_ty.clone(), f.body.clone()],
        Item::Extern(e) => vec![e.term.clone()],
    }
}

#[test]
fn no_local_is_free_in_an_elaborated_module() {
    // inductive Nat; inductive Vec (A : Type) | vnil | vcons : A -> Vec A -> Vec A
    // def pred (n : Nat) : Nat := match n { zero => n; succ k => k }
    // def twice (A : Type) (f : A -> A) (x : A) : A := let y : A := f x in f y
    // def any : _ := fun (B : Type) (b : B) => _
    let vec = syntax::Item::Inductive(syntax::Inductive {
        span: Span::dummy(),
        name: name("Vec"),
        parameters: vec![binder("A", syntax::Term::Type)],
        ty: syntax::Term::Type,
        ctors: vec![
            (name("vnil"), sapp(var("Vec"), var("A"))),
            (name("vcons"), arrow(var("A"), arrow(sapp(var("Vec"), var("A")), sapp(var("Vec"), var("A"))))),
        ],
    });
    let cases = vec![
        syntax::Case { span: Span::dummy(), pattern: syntax::Pattern::Name(name("zero")), rhs: var("n") },
        syntax::Case {
            span: Span::dummy(),
            pattern: syntax::Pattern::Constructor(name("succ"), vec![syntax::Pattern::Name(name("k"))]),
            rhs: var("k"),
        },
    ];
    let pred = def(
        "pred",
        vec![binder("n", var("Nat"))],
        var("Nat"),
        syntax::Term::Match { span: Span::dummy(), scrutinee: Box::new(var("n")), cases },
    );
    let twice = def(
        "twice",
        vec![binder("A", syntax::Term::Type), binder("f", arrow(var("A"), var("A"))), binder("x", var("A"))],
        var("A"),
        syntax::Term::Let {
            span: Span::dummy(),
            binders: vec![binder("y", var("A"))],
            values: vec![sapp(var("f"), var("x"))],
            body: Box::new(sapp(var("f"), var("y"))),
        },
    );
    let any = def(
        "any",
        vec![],
        hole(),
        syntax::Term::Lambda {
            span: Span::dummy(),
            args: vec![binder("B", syntax::Term::Type), binder("b", var("B"))],
            body: Box::new(hole()),
        },
    );
    let mut ecx = context(vec![nat_decl(), vec, pred, twice, any]);
    let m = ecx.elaborate_module("main.hbr".to_string()).unwrap();
    assert_eq!(m.defs.len(), 5);
    for item in &m.defs {
        for t in item_terms(item) {
            let mut found = vec![];
            free_locals(&t, &mut found);
            assert!(found.is_empty(), "free locals {:?} in {:?}", found, t);
        }
    }
    for d in &ecx.ty_cx.declarations {
        let mut found = vec![];
        free_locals(&d.ty, &mut found);
        assert!(found.is_empty(), "free locals {:?} in the type of {:?}", found, d.name);
    }
}

#[test]
fn a_module_of_many_items_is_elaborated() {
    let mut items = vec![nat_decl()];
    for i in 0..3000 {
        let body = if i == 0 { var("zero") } else { sapp(var("succ"), var(&format!("d{}", i - 1))) };
        items.push(def(&format!("d{}", i), vec![], var("Nat"), body));
    }
    let mut ecx = context(items);
    let m = ecx.elaborate_module("main.hbr".to_string()).unwrap();
    assert_eq!(m.defs.len(), 3001);
    assert!(ecx.constraints.len() >= 3000);
    let constraints = ecx.constraints.clone();
    let solver = Solver::new(&mut ecx.ty_cx, constraints).unwrap();
    let solutions = solver.solve().unwrap();
    assert!(solutions.is_empty());
    let explicit = replace_metavars_in_module(&m, &solutions).unwrap();
    assert_eq!(explicit.defs.len(), 3001);
}

#[test]
fn the_justification_of_an_error_goes_back_to_a_constraint_that_was_given() {
    // def f (n : Nat) : Nat := succ Type
    let f = def(
        "f",
        vec![binder("n", var("Nat"))],
        var("Nat"),
        syntax::Term::App { span: Span::new(30, 39), fun: Box::new(var("succ")), arg: Box::new(syntax::Term::Type) },
    );
    let mut ecx = context(vec![nat_decl(), f]);
    ecx.elaborate_module("main.hbr".to_string()).unwrap();
    let constraints = ecx.constraints.clone();
    let given: Vec<Span> = constraints
        .iter()
        .filter_map(|c| match c {
            hubris::constraint::Constraint::Unification(_, _, Justification::Asserted(AssertedBy::Application(s, _, _))) => Some(*s),
            _ => None,
        })
        .collect();
    assert_eq!(given, vec![Span::new(30, 39)]);
    match Solver::new(&mut ecx.ty_cx, constraints) {
        Err(SolverError::Justification(Justification::Asserted(AssertedBy::Application(span, f, a)))) => {
            assert_eq!(span, Span::new(30, 39));
            assert_eq!(f, pi(global("Nat"), global("Nat")));
            assert_eq!(a, Term::Type);
        },
        Err(other) => panic!("expected a mismatch, got {:?}", other),
        Ok(_) => panic!("expected a mismatch"),
    }
}

#[test]
fn a_resolved_name_carries_the_place_of_its_occurrence() {
    let mut ecx = context(vec![]);
    let mut lcx = LocalElabCx::from_elab_cx(&mut ecx);
    let locals = lcx
        .enter_scope(&vec![syntax::Binder { name: name_at("x", 1, 2), ty: syntax::Term::Type }])
        .unwrap();
    assert_eq!(locals[0].get_span(), Span::dummy());
    let first = lcx.elaborate_name(&name_at("x", 10, 11)).unwrap();
    let second = lcx.elaborate_name(&name_at("x", 20, 21)).unwrap();
    assert!(first.is_local());
    assert_eq!(first, second);
    assert_eq!(first.get_span(), Span::new(10, 11));
    assert_eq!(second.get_span(), Span::new(20, 21));
    let occurrence = syntax::Term::Var { name: name_at("x", 30, 31) };
    assert_eq!(lcx.elaborate_term(&occurrence).unwrap().get_span(), Span::new(30, 31));
    let placeholder = syntax::Name { span: Span::new(40, 41), repr: syntax::NameKind::Placeholder };
    let meta = lcx.elaborate_name(&placeholder).unwrap();
    assert!(meta.is_meta());
    assert_eq!(meta.get_span(), Span::new(40, 41));
    let hole = syntax::Term::Var { name: placeholder };
    assert_eq!(lcx.elaborate_term(&hole).unwrap().head().get_span(), Span::new(40, 41));
    // under a binder the bound occurrence keeps its place
    let t = syntax::Term::Lambda {
        span: Span::dummy(),
        args: vec![binder("y", syntax::Term::Type)],
        body: Box::new(syntax::Term::Var { name: name_at("y", 50, 51) }),
    };
    match lcx.elaborate_term(&t).unwrap() {
        Term::Lambda { body, .. } => assert_eq!(body.get_span(), Span::new(50, 51)),
        other => panic!("expected a lambda, got {:?}", other),
    }
}

#[test]
fn instantiating_a_definition_with_its_arguments_gives_the_parts_back() {
    // def k (A : Type) (x : A) (y : A) : A -> A := fun (z : A) => x
    let k = def(
        "k",
        vec![binder("A", syntax::Term::Type), binder("x", var("A")), binder("y", var("A"))],
        arrow(var("A"), var("A")),
        syntax::Term::Lambda {
            span: Span::dummy(),
            args: vec![binder("z", var("A"))],
            body: Box::new(var("x")),
        },
    );
    let mut ecx = context(vec![k]);
    let m = ecx.elaborate_module("main.hbr".to_string()).unwrap();
    match &m.defs[0] {
        Item::Fn(f) => {
            assert_eq!(f.args.len(), 3);
            let vars: Vec<Term> = f.args.iter().map(|a| a.to_term()).collect();
            let a = f.args[0].to_term();
            let x = f.args[1].to_term();
            assert_eq!(f.body.instantiate_all(&vars), lam(a.clone(), x));
            assert_eq!(f.ret_ty.instantiate_all(&vars), pi(a.clone(), a));
            // the first argument stands for the outermost binder
            match f.body.instantiate(&global("Nat")) {
                Term::Lambda { binder, .. } => assert_eq!(*binder.ty, global("Nat")),
                other => panic!("expected a lambda, got {:?}", other),
            }
        },
        other => panic!("expected a definition, got {:?}", other),
    }
}
