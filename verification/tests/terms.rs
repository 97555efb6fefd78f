use hubris::span::Span;
use hubris::term::{Binder, Literal, Name, Term};

fn global(s: &str) -> Term {
    Term::Var { name: Name::from_str(s) }
}

fn local(number: usize, repr: &str, ty: Term) -> Name {
    Name::Local { span: Span::dummy(), number, repr: repr.to_string(), ty: Box::new(ty) }
}

fn meta(number: usize) -> Name {
    Name::Meta { span: Span::dummy(), number, ty: Box::new(Term::Type) }
}

fn bound(index: usize) -> Term {
    Term::Var { name: Name::Bound { span: Span::dummy(), index, repr: "_".to_string() } }
}

fn app(f: Term, a: Term) -> Term {
    Term::App { span: Span::dummy(), fun: Box::new(f), arg: Box::new(a) }
}

fn lam(ty: Term, body: Term) -> Term {
    Term::Lambda {
        span: Span::dummy(),
        binder: Binder::new(Name::Bound { span: Span::dummy(), index: 0, repr: "_".to_string() }, ty),
        body: Box::new(body),
    }
}

fn pi(ty: Term, body: Term) -> Term {
    Term::Forall {
        span: Span::dummy(),
        binder: Binder::new(Name::Bound { span: Span::dummy(), index: 0, repr: "_".to_string() }, ty),
        term: Box::new(body),
    }
}

#[test]
fn apply_all_is_left_associative() {
    let t = Term::apply_all(global("f"), vec![global("a"), global("b")]);
    assert_eq!(t, app(app(global("f"), global("a")), global("b")));
    assert_eq!(Term::apply_all(global("f"), vec![]), global("f"));
}

#[test]
fn head_and_args_take_a_spine_apart() {
    let t = app(app(global("f"), global("a")), global("b"));
    assert_eq!(t.head(), global("f"));
    assert_eq!(t.args(), vec![global("a"), global("b")]);
    let (h, args) = t.uncurry();
    assert_eq!(h, global("f"));
    assert_eq!(args, vec![global("a"), global("b")]);
    assert_eq!(global("f").head(), global("f"));
    assert!(global("f").args().is_empty());
}

#[test]
fn heads_are_classified() {
    let x = local(0, "x", Term::Type);
    assert!(app(x.to_term(), global("a")).head_is_local());
    assert!(!app(x.to_term(), global("a")).head_is_global());
    assert!(app(global("f"), x.to_term()).head_is_global());
    assert!(app(meta(3).to_term(), x.to_term()).head_is_meta());
    assert!(!Term::Type.head_is_local());
    assert!(!Term::Type.head_is_global());
}

#[test]
fn a_term_is_stuck_on_the_metavariable_at_its_head() {
    let x = local(0, "x", Term::Type);
    let t = app(app(meta(7).to_term(), x.to_term()), global("a"));
    assert_eq!(t.is_stuck(), Some(meta(7)));
    assert_eq!(app(global("f"), meta(7).to_term()).is_stuck(), None);
    assert_eq!(Term::Type.is_stuck(), None);
}

#[test]
fn abstract_pi_binds_the_first_local_outermost() {
    let a = local(0, "A", Term::Type);
    let x = local(1, "x", a.to_term());
    let t = Term::abstract_pi(vec![a.clone(), x.clone()], a.to_term());
    assert!(t.is_forall());
    assert_eq!(t, pi(Term::Type, pi(bound(0), bound(1))));
}

#[test]
fn abstract_lambda_closes_the_locals() {
    let a = local(0, "A", Term::Type);
    let x = local(1, "x", a.to_term());
    let t = Term::abstract_lambda(vec![a, x.clone()], x.to_term());
    assert!(t.is_lambda());
    assert_eq!(t, lam(Term::Type, lam(bound(0), bound(0))));
}

#[test]
fn abstract_over_no_locals_is_the_term() {
    assert_eq!(Term::abstract_pi(vec![], global("Nat")), global("Nat"));
    assert_eq!(Term::abstract_lambda(vec![], global("Nat")), global("Nat"));
}

#[test]
fn abstract_skips_names_that_are_no_locals() {
    let t = Term::abstract_lambda(vec![Name::from_str("g")], global("g"));
    assert_eq!(t, global("g"));
}

#[test]
fn abstract_then_instantiate_gives_the_body_back() {
    let a = local(0, "a", global("Nat"));
    let b = local(1, "b", global("Nat"));
    let body = app(app(global("F"), a.to_term()), b.to_term());
    let lam = Term::abstract_lambda(vec![a.clone(), b.clone()], body.clone());
    let back = lam.instantiate_all(&vec![a.to_term(), b.to_term()]);
    assert_eq!(back, body);
    let pi = Term::abstract_pi(vec![a.clone(), b.clone()], body.clone());
    assert_eq!(pi.instantiate_all(&vec![a.to_term(), b.to_term()]), body);
}

#[test]
fn instantiate_puts_the_argument_under_inner_binders() {
    // (fun (x : Nat) => fun (y : Nat) => f x y) instantiated with a
    let t = lam(global("Nat"), lam(global("Nat"), app(app(global("f"), bound(1)), bound(0))));
    let r = t.instantiate(&global("a"));
    assert_eq!(r, lam(global("Nat"), app(app(global("f"), global("a")), bound(0))));
}

#[test]
fn instantiate_leaves_a_term_without_binder() {
    assert_eq!(global("a").instantiate(&global("b")), global("a"));
}

#[test]
fn instantiate_meta_replaces_every_occurrence() {
    let m = meta(4);
    let t = app(app(global("f"), m.to_term()), lam(m.to_term(), m.to_term()));
    let r = t.instantiate_meta(&m, &global("Nat"));
    assert_eq!(r, app(app(global("f"), global("Nat")), lam(global("Nat"), global("Nat"))));
    assert!(!r.has_meta());
    let other = t.instantiate_meta(&meta(5), &global("Nat"));
    assert_eq!(other, t);
}

#[test]
fn equality_ignores_spans_and_printed_forms() {
    let a = Term::App {
        span: Span::new(3, 9),
        fun: Box::new(global("f")),
        arg: Box::new(local(2, "x", Term::Type).to_term()),
    };
    let b = Term::App {
        span: Span::new(40, 41),
        fun: Box::new(global("f")),
        arg: Box::new(local(2, "renamed", global("Nat")).to_term()),
    };
    assert_eq!(a, b);
    assert_ne!(a, app(global("f"), local(3, "x", Term::Type).to_term()));
}

#[test]
fn set_span_does_not_change_equality() {
    let mut n = Name::from_str("Nat");
    let before = n.clone();
    n.set_span(Span::new(5, 8));
    assert_eq!(n, before);
    match n {
        Name::Qual { span, .. } => assert_eq!(span, Span::new(5, 8)),
        _ => panic!("a qualified name stays one"),
    }
}

#[test]
fn name_predicates_are_total() {
    let names = vec![
        Name::from_str("g"),
        local(0, "x", Term::Type),
        meta(1),
        Name::Bound { span: Span::dummy(), index: 0, repr: "b".to_string() },
    ];
    let metas: Vec<bool> = names.iter().map(|n| n.is_meta()).collect();
    let locals: Vec<bool> = names.iter().map(|n| n.is_local()).collect();
    let quals: Vec<bool> = names.iter().map(|n| n.is_qual()).collect();
    assert_eq!(metas, vec![false, false, true, false]);
    assert_eq!(locals, vec![false, true, false, false]);
    assert_eq!(quals, vec![true, false, false, false]);
}

#[test]
fn in_scope_appends_a_component() {
    let n = Name::from_str("Nat").in_scope("rec".to_string()).unwrap();
    match &n {
        Name::Qual { components, .. } => {
            assert_eq!(components, &vec!["Nat".to_string(), "rec".to_string()])
        },
        _ => panic!("a qualified name stays one"),
    }
    assert!(meta(0).in_scope("rec".to_string()).is_none());
}

#[test]
fn literals_compare_by_value() {
    let one = Term::Literal { span: Span::dummy(), lit: Literal::Int(1) };
    let uno = Term::Literal { span: Span::new(1, 2), lit: Literal::Int(1) };
    let two = Term::Literal { span: Span::dummy(), lit: Literal::Int(2) };
    let unit = Term::Literal { span: Span::dummy(), lit: Literal::Unit };
    assert_eq!(one, uno);
    assert_ne!(one, two);
    assert_ne!(one, unit);
}

#[test]
fn get_span_reads_the_place_of_a_term() {
    let t = Term::App { span: Span::new(2, 7), fun: Box::new(global("f")), arg: Box::new(global("a")) };
    assert_eq!(t.get_span(), Span::new(2, 7));
    assert_eq!(Term::Type.get_span(), Span::dummy());
}
