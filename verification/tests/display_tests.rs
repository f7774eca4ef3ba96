use std::rc::Rc;

use lamuda::eval;
use lamuda::term::{terms_equal, Term};
use lamuda::typ::Type;

fn rc(t: Term) -> Rc<Term> {
    Rc::new(t)
}

fn fun(name: &str, param_type: Term, body: Term) -> Term {
    Term::Fun { param_name: name.to_string(), param_type: rc(param_type), body: rc(body) }
}

fn var(index: usize, name: &str) -> Term {
    Term::Var { index, name: name.to_string() }
}

fn app(f: Term, a: Term) -> Term {
    Term::App { callee: rc(f), arg: rc(a) }
}

fn c(name: &str) -> Term {
    Term::Const { name: name.to_string() }
}

#[test]
fn sorts_display_by_level() {
    assert_eq!(Term::Sort { level: 0 }.to_string(), "Prop");
    assert_eq!(Term::Sort { level: 1 }.to_string(), "Type");
    assert_eq!(Term::Sort { level: 2 }.to_string(), "Type 1");
    assert_eq!(Term::Sort { level: 11 }.to_string(), "Type 10");
}

#[test]
fn numbers_and_variables() {
    assert_eq!(Term::Nat { value: 0 }.to_string(), "0");
    assert_eq!(Term::Nat { value: 1234567890 }.to_string(), "1234567890");
    assert_eq!(var(12, "x").to_string(), "12#x");
}

#[test]
fn applications_parenthesize_functions_and_nested_arguments() {
    assert_eq!(app(fun("x", Term::NatType, var(0, "x")), Term::Nat { value: 5 }).to_string(), "(fun (x : Nat) => 0#x) 5");
    assert_eq!(app(c("f"), app(c("g"), c("x"))).to_string(), "f (g x)");
    assert_eq!(app(app(c("f"), fun("x", Term::NatType, var(0, "x"))), c("y")).to_string(), "f (fun (x : Nat) => 0#x) y");
    assert_eq!(app(app(c("f"), c("x")), c("y")).to_string(), "f x y");
}

#[test]
fn products_and_lets() {
    let arrow = Term::Prod { param_name: String::new(), param_type: rc(Term::NatType), body_type: rc(Term::NatType) };
    let higher = Term::Prod { param_name: String::new(), param_type: rc(arrow), body_type: rc(Term::UnitType) };
    assert_eq!(higher.to_string(), "(Nat -> Nat) -> Unit");
    let named = Term::Prod { param_name: "A".to_string(), param_type: rc(Term::Sort { level: 1 }), body_type: rc(var(0, "A")) };
    assert_eq!(named.to_string(), "(A : Type) -> 0#A");
    let l = Term::Let { name: "x".to_string(), value: rc(Term::Unit), body: rc(var(0, "x")) };
    assert_eq!(l.to_string(), "let x := unit; 0#x");
}

#[test]
fn equality_ignores_names() {
    assert!(terms_equal(&fun("x", Term::NatType, var(0, "x")), &fun("y", Term::NatType, var(0, "y"))));
    assert!(!terms_equal(&fun("x", Term::NatType, var(0, "x")), &fun("x", Term::UnitType, var(0, "x"))));
    assert!(!terms_equal(&c("a"), &c("b")));
    assert!(!terms_equal(&c("b"), &c("a")));
    assert!(!terms_equal(&var(0, "x"), &var(1, "x")));
    assert!(terms_equal(&var(1, "x"), &var(1, "y")));
    assert!(terms_equal(&c("a"), &c("a")));
    assert!(!terms_equal(&Term::Sort { level: 1 }, &Term::Sort { level: 2 }));
}

#[test]
fn simple_types_display() {
    let int_to_int = Type::Fun { param_type: Box::new(Type::Int), body_type: Box::new(Type::Int) };
    let t = Type::Fun { param_type: Box::new(int_to_int), body_type: Box::new(Type::Unit) };
    assert_eq!(t.to_string(), "(Int -> Int) -> Unit");
    assert_eq!(t.duplicate().to_string(), "(Int -> Int) -> Unit");
    let u = Type::Fun { param_type: Box::new(Type::Unit), body_type: Box::new(Type::Fun { param_type: Box::new(Type::Int), body_type: Box::new(Type::Int) }) };
    assert_eq!(u.to_string(), "Unit -> Int -> Int");
}

#[test]
fn values_display() {
    assert_eq!(eval::Term::Unit.to_string(), "unit");
    assert_eq!(eval::Term::Int { value: 42 }.to_string(), "42");
    assert_eq!(eval::Term::Int { value: -7 }.to_string(), "-7");
    assert_eq!(eval::Term::Int { value: i32::MIN }.to_string(), "-2147483648");
    assert_eq!(eval::Term::Int { value: 0 }.to_string(), "0");
}
