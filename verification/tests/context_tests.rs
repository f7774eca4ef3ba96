use std::rc::Rc;

use lamuda::context::{Const, ConstValue, GlobalContext, LocalContext, RecRule, Var};
use lamuda::env::Env;
use lamuda::normalize::{normalize, NormError};
use lamuda::check::norm_error;
use lamuda::syntax::Span;
use lamuda::term::Term;

fn rc(t: Term) -> Rc<Term> {
    Rc::new(t)
}

fn app(f: Rc<Term>, a: Rc<Term>) -> Rc<Term> {
    rc(Term::App { callee: f, arg: a })
}

fn cnst(name: &str) -> Rc<Term> {
    rc(Term::Const { name: name.to_string() })
}

fn var(index: usize, name: &str) -> Rc<Term> {
    rc(Term::Var { index, name: name.to_string() })
}

#[test]
fn local_get_finds_the_nearest_binding() {
    let mut l = LocalContext::new();
    l.push(Var { name: "x".to_string(), typ: rc(Term::NatType) });
    l.push(Var { name: "y".to_string(), typ: rc(Term::UnitType) });
    let l2 = l.extend(Var { name: "x".to_string(), typ: rc(Term::Unit) });
    let (i, v) = l2.get("x").unwrap();
    assert_eq!(i, 0);
    assert_eq!(v.typ.to_string(), "unit");
    let (i, v) = l2.get("y").unwrap();
    assert_eq!(i, 1);
    assert_eq!(v.name, "y");
    assert!(l2.get("z").is_none());
    let (i, v) = l.get("x").unwrap();
    assert_eq!(i, 1);
    assert_eq!(v.typ.to_string(), "Nat");
}

#[test]
fn global_insert_then_get() {
    let mut g = GlobalContext::new();
    assert!(g.get("a").is_none());
    g.insert("a".to_string(), Const { typ: rc(Term::NatType), value: ConstValue::Def { value: rc(Term::Nat { value: 1 }) } });
    g.insert("b".to_string(), Const { typ: rc(Term::UnitType), value: ConstValue::Ind });
    match &g.get("a").unwrap().value {
        ConstValue::Def { value } => assert_eq!(value.to_string(), "1"),
        _ => panic!(),
    }
    assert!(matches!(g.get("b").unwrap().value, ConstValue::Ind));
    g.insert("a".to_string(), Const { typ: rc(Term::NatType), value: ConstValue::Ctor });
    assert!(matches!(g.get("a").unwrap().value, ConstValue::Ctor));
    let copy = g.clone();
    assert!(matches!(copy.get("b").unwrap().value, ConstValue::Ind));
}

#[test]
fn env_index_counts_from_the_innermost_binder() {
    let mut e = Env::new();
    e.push(Some(rc(Term::Nat { value: 1 })));
    e.push(None);
    let e2 = e.extend(Some(rc(Term::Nat { value: 3 })));
    assert_eq!(e2.index(0).as_ref().unwrap().to_string(), "3");
    assert!(e2.index(1).is_none());
    assert_eq!(e2.index(2).as_ref().unwrap().to_string(), "1");
    assert_eq!(e.len(), 2);
    assert_eq!(e2.len(), 3);
}

#[test]
fn normalize_substitutes_bound_values() {
    let g = GlobalContext::new();
    let mut e = Env::new();
    e.push(Some(var(0, "a")));
    e.push(None);
    // index 1 refers to the value `0#a`, which is shifted past the two binders.
    let r = normalize(&var(1, "x"), &g, &e).unwrap();
    assert_eq!(r.to_string(), "2#a");
    let r = normalize(&var(0, "y"), &g, &e).unwrap();
    assert_eq!(r.to_string(), "0#y");
}

#[test]
fn normalize_reports_unbound_index() {
    let g = GlobalContext::new();
    let e = Env::new();
    assert_eq!(normalize(&var(0, "x"), &g, &e).unwrap_err(), NormError::UnboundIndex);
}

#[test]
fn normalize_beta_reduces_under_binders() {
    let g = GlobalContext::new();
    let e = Env::new();
    // fun (z : Nat) => (fun (x : Nat) => x) z
    let id = rc(Term::Fun { param_name: "x".to_string(), param_type: rc(Term::NatType), body: var(0, "x") });
    let t = rc(Term::Fun { param_name: "z".to_string(), param_type: rc(Term::NatType), body: app(id, var(0, "z")) });
    assert_eq!(normalize(&t, &g, &e).unwrap().to_string(), "fun (z : Nat) => 0#z");
}

#[test]
fn recursor_on_constructor_reduces() {
    let mut g = GlobalContext::new();
    g.insert(
        "recB".to_string(),
        Const {
            typ: rc(Term::UnitType),
            value: ConstValue::Rec { rule: RecRule { ctors: vec!["t".to_string(), "f".to_string()] } },
        },
    );
    let e = Env::new();
    // recB f a b c: the argument just past the constructors (counting the
    // last-applied one as 0) is `f`, the constructor at position 1, so the
    // result is the argument at position 2, `b`.
    let t = app(app(app(app(cnst("recB"), cnst("f")), cnst("a")), cnst("b")), cnst("c"));
    assert_eq!(normalize(&t, &g, &e).unwrap().to_string(), "a");
    // Too few arguments: no reduction.
    let t = app(app(app(cnst("recB"), cnst("f")), cnst("a")), cnst("b"));
    assert_eq!(normalize(&t, &g, &e).unwrap().to_string(), "recB f a b");
    // Not a constructor: no reduction.
    let t = app(app(app(app(cnst("recB"), cnst("q")), cnst("a")), cnst("b")), cnst("c"));
    assert_eq!(normalize(&t, &g, &e).unwrap().to_string(), "recB q a b c");
}

#[test]
fn normalize_goes_deep() {
    let g = GlobalContext::new();
    let e = Env::new();
    // A function whose parameter type is a chain of 2047 products.
    let mut chain = rc(Term::UnitType);
    for _ in 0..2047 {
        chain = rc(Term::Prod { param_name: "".to_string(), param_type: rc(Term::UnitType), body_type: chain });
    }
    let f = rc(Term::Fun { param_name: "x".to_string(), param_type: chain.clone(), body: rc(Term::Unit) });
    let nf = normalize(&f, &g, &e).unwrap();
    match &*nf {
        Term::Fun { param_type, body, .. } => {
            assert_eq!(param_type.to_string(), chain.to_string());
            assert_eq!(body.to_string(), "unit");
        }
        _ => panic!("not a function"),
    }
    // A chain of 2100 nested functions.
    let mut t = rc(Term::Unit);
    for _ in 0..2100 {
        t = rc(Term::Fun { param_name: "x".to_string(), param_type: rc(Term::UnitType), body: t });
    }
    assert_eq!(normalize(&t, &g, &e).unwrap().to_string(), t.to_string());
}

#[test]
fn normalization_failures_are_reported_at_their_span() {
    let span = Span { start: 2, end: 7 };
    let es = norm_error(span, NormError::DepthExceeded);
    assert_eq!(es.len(), 1);
    assert_eq!((es[0].span.start, es[0].span.end), (2, 7));
    assert_eq!(es[0].message, "normalization exceeded its depth bound");
    let es = norm_error(span, NormError::UnboundIndex);
    assert_eq!(es.len(), 1);
    assert_eq!(es[0].message, "normalization met a variable outside its environment");
}

#[test]
fn normal_forms_normalize_to_themselves() {
    let mut g = GlobalContext::new();
    g.insert(
        "recB".to_string(),
        Const {
            typ: rc(Term::UnitType),
            value: ConstValue::Rec { rule: RecRule { ctors: vec!["t".to_string(), "f".to_string()] } },
        },
    );
    // Under a binder with no value: fun (y : Unit) => (fun (x : Unit) => x) y
    let e = Env::new();
    let id = rc(Term::Fun { param_name: "x".to_string(), param_type: rc(Term::UnitType), body: var(0, "x") });
    let t = rc(Term::Fun { param_name: "y".to_string(), param_type: rc(Term::UnitType), body: app(id, var(0, "y")) });
    let once = normalize(&t, &g, &e).unwrap();
    assert_eq!(once.to_string(), "fun (y : Unit) => 0#y");
    let twice = normalize(&once, &g, &e).unwrap();
    assert_eq!(twice.to_string(), once.to_string());
    // A stuck recursor application stays as it is.
    let stuck = app(app(app(app(cnst("recB"), cnst("q")), cnst("a")), cnst("b")), cnst("c"));
    assert_eq!(normalize(&stuck, &g, &e).unwrap().to_string(), stuck.to_string());
    // A free variable bound to an entry with no value stays.
    let mut e1 = Env::new();
    e1.push(None);
    assert_eq!(normalize(&var(0, "z"), &g, &e1).unwrap().to_string(), "0#z");
}
