use hubris::backend::{ErasureCx, Term as Untyped};
use hubris::item::Function;
use hubris::span::Span;
use hubris::term::{Binder, Literal, Name, Term};
use hubris::typeck::TyCtxt;

fn global(s: &str) -> Term {
    Term::Var { name: Name::from_str(s) }
}

fn bound(index: usize) -> Term {
    Term::Var { name: Name::Bound { span: Span::dummy(), index, repr: "x".to_string() } }
}

fn app(f: Term, a: Term) -> Term {
    Term::App { span: Span::dummy(), fun: Box::new(f), arg: Box::new(a) }
}

fn lam(ty: Term, body: Term) -> Term {
    Term::Lambda {
        span: Span::dummy(),
        binder: Binder::new(Name::Bound { span: Span::dummy(), index: 0, repr: "x".to_string() }, ty),
        body: Box::new(body),
    }
}

fn is_var(t: &Untyped, n: &Name) -> bool {
    matches!(t, Untyped::Var(m) if m == n)
}

#[test]
fn lowering_uncurries_a_spine_into_one_call() {
    let cx = TyCtxt::empty();
    let mut ecx = ErasureCx::new(&cx);
    let t = app(app(global("f"), global("a")), app(global("g"), global("b")));
    match ecx.lower_term(&t).unwrap() {
        Untyped::Call(head, args) => {
            assert!(is_var(&head, &Name::from_str("f")));
            assert_eq!(args.len(), 2);
            assert!(is_var(&args[0], &Name::from_str("a")));
            match &args[1] {
                Untyped::Call(h, inner) => {
                    assert!(is_var(h, &Name::from_str("g")));
                    assert_eq!(inner.len(), 1);
                    assert!(is_var(&inner[0], &Name::from_str("b")));
                },
                other => panic!("expected a call, got {:?}", other),
            }
        },
        other => panic!("expected a call, got {:?}", other),
    }
}

#[test]
fn lowering_keeps_the_body_of_a_lambda() {
    let cx = TyCtxt::empty();
    let mut ecx = ErasureCx::new(&cx);
    let t = lam(Term::Type, lam(bound(0), bound(0)));
    assert!(is_var(&ecx.lower_term(&t).unwrap(), &Name::Bound { span: Span::dummy(), index: 0, repr: "x".to_string() }));
    // a lambda at the head of a spine is lowered before it is called
    let called = app(lam(Term::Type, global("f")), global("a"));
    match ecx.lower_term(&called).unwrap() {
        Untyped::Call(head, args) => {
            assert!(is_var(&head, &Name::from_str("f")));
            assert_eq!(args.len(), 1);
        },
        other => panic!("expected a call, got {:?}", other),
    }
}

#[test]
fn types_and_literals_have_no_untyped_form() {
    let cx = TyCtxt::empty();
    let mut ecx = ErasureCx::new(&cx);
    assert!(ecx.lower_term(&Term::Type).is_none());
    assert!(ecx.lower_term(&Term::Literal { span: Span::dummy(), lit: Literal::Int(1) }).is_none());
    assert!(ecx.lower_term(&app(global("f"), Term::Type)).is_none());
    assert!(ecx.lower_term(&app(Term::Type, global("a"))).is_none());
}

#[test]
fn lowering_a_definition_keeps_its_name() {
    let mut cx = TyCtxt::empty();
    cx.declare_def(&Function {
        name: Name::from_str("one"),
        args: vec![],
        ret_ty: global("Nat"),
        body: app(global("succ"), global("zero")),
    });
    let defs = cx.definitions();
    let mut ecx = ErasureCx::new(&cx);
    let d = ecx.lower_def(&defs[0]).unwrap();
    assert_eq!(d.name, Name::from_str("one"));
    assert!(matches!(d.body, Untyped::Call(_, _)));
}
