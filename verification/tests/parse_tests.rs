use lamuda::parse::repl_cmd;
use lamuda::repl_cmd::ReplCmd;
use lamuda::syntax::{Command, Span, Syntax};

fn syntax(input: &str) -> Syntax {
    match repl_cmd(input) {
        Ok(ReplCmd::Syntax { syntax }) => syntax,
        _ => panic!("not a term: {input}"),
    }
}

fn error(input: &str) -> (Span, String) {
    match repl_cmd(input) {
        Err(es) => {
            assert_eq!(es.len(), 1);
            (es[0].span, es[0].message.clone())
        }
        Ok(_) => panic!("parsed: {input}"),
    }
}

#[test]
fn numbers() {
    assert!(matches!(syntax("0"), Syntax::Nat { value: 0 }));
    assert!(matches!(syntax("  123  "), Syntax::Nat { value: 123 }));
    assert!(matches!(syntax("18446744073709551615"), Syntax::Nat { value: 18446744073709551615 }));
}

#[test]
fn number_too_large_is_not_a_number() {
    assert_eq!(error("18446744073709551616").1, "could not parse input");
}

#[test]
fn leading_zero_starts_a_new_number() {
    match syntax("07") {
        Syntax::App { callee, arg } => {
            assert!(matches!(*callee.inner, Syntax::Nat { value: 0 }));
            assert!(matches!(*arg.inner, Syntax::Nat { value: 7 }));
            assert_eq!(callee.span, Span { start: 0, end: 1 });
            assert_eq!(arg.span, Span { start: 1, end: 2 });
        }
        _ => panic!(),
    }
}

#[test]
fn universes() {
    assert!(matches!(syntax("Prop"), Syntax::Sort { level: 0 }));
    assert!(matches!(syntax("Type"), Syntax::Sort { level: 1 }));
    assert!(matches!(syntax("Type 3"), Syntax::Sort { level: 4 }));
    assert!(matches!(syntax("Sort 3"), Syntax::Sort { level: 3 }));
    assert!(matches!(syntax("Unit"), Syntax::UnitType));
    assert!(matches!(syntax("unit"), Syntax::Unit));
    assert!(matches!(syntax("Nat"), Syntax::NatType));
}

#[test]
fn keyword_prefix_is_a_name() {
    match syntax("Natural") {
        Syntax::Var { name } => {
            assert_eq!(name.inner, "Natural");
            assert_eq!(name.span, Span { start: 0, end: 7 });
        }
        _ => panic!(),
    }
}

#[test]
fn application_is_left_nested() {
    match syntax("f a b") {
        Syntax::App { callee, arg } => {
            assert_eq!(callee.span, Span { start: 0, end: 3 });
            assert_eq!(arg.span, Span { start: 4, end: 5 });
            assert!(matches!(*arg.inner, Syntax::Var { .. }));
            match *callee.inner {
                Syntax::App { callee: f, arg: a } => {
                    assert_eq!(f.span, Span { start: 0, end: 1 });
                    assert_eq!(a.span, Span { start: 2, end: 3 });
                }
                _ => panic!(),
            }
        }
        _ => panic!(),
    }
}

#[test]
fn arrows_nest_to_the_right() {
    match syntax("A -> B -> C") {
        Syntax::Prod { param_name, param_type, body_type } => {
            assert_eq!(param_name, "");
            assert_eq!(param_type.span, Span { start: 0, end: 2 });
            assert_eq!(body_type.span, Span { start: 5, end: 11 });
            assert!(matches!(*body_type.inner, Syntax::Prod { .. }));
        }
        _ => panic!(),
    }
}

#[test]
fn named_parameters_share_a_type() {
    match syntax("(x y : Nat) -> Nat") {
        Syntax::Prod { param_name, body_type, .. } => {
            assert_eq!(param_name, "x");
            match *body_type.inner {
                Syntax::Prod { param_name, .. } => assert_eq!(param_name, "y"),
                _ => panic!(),
            }
        }
        _ => panic!(),
    }
}

#[test]
fn function_with_parameter_groups() {
    match syntax("fun (x : Nat) (y : Unit) => x") {
        Syntax::Fun { param_name, param_type, body } => {
            assert_eq!(param_name, "x");
            assert_eq!(param_type.span, Span { start: 9, end: 12 });
            match *body {
                Syntax::Fun { param_name, .. } => assert_eq!(param_name, "y"),
                _ => panic!(),
            }
        }
        _ => panic!(),
    }
}

#[test]
fn let_with_parameters() {
    match syntax("let f (n : Nat) := n; f 1") {
        Syntax::Let { name, value, body } => {
            assert_eq!(name, "f");
            assert!(matches!(*value, Syntax::Fun { .. }));
            assert!(matches!(*body, Syntax::App { .. }));
        }
        _ => panic!(),
    }
}

#[test]
fn def_command() {
    match repl_cmd("def two := 2") {
        Ok(ReplCmd::Command { command: Command::Def { name, value } }) => {
            assert_eq!(name.inner, "two");
            assert_eq!(name.span, Span { start: 4, end: 7 });
            assert!(matches!(value, Syntax::Nat { value: 2 }));
        }
        _ => panic!(),
    }
}

#[test]
fn inductive_command() {
    match repl_cmd("inductive B (A : Type) : Type | t : B | f : B") {
        Ok(ReplCmd::Command { command: Command::Inductive { name, typ, ctors } }) => {
            assert_eq!(name.inner, "B");
            assert!(matches!(typ.inner, Syntax::Prod { .. }));
            assert_eq!(typ.span, Span { start: 12, end: 30 });
            assert_eq!(ctors.len(), 2);
            assert_eq!(ctors[0].name.inner, "t");
            assert_eq!(ctors[1].name.inner, "f");
            assert_eq!(ctors[1].name.span, Span { start: 40, end: 41 });
        }
        _ => panic!(),
    }
}

#[test]
fn keyword_alone_is_a_variable() {
    match syntax("fun") {
        Syntax::Var { name } => assert_eq!(name.inner, "fun"),
        _ => panic!(),
    }
}

#[test]
fn trailing_input_is_an_error() {
    assert_eq!(error("x )"), (Span { start: 2, end: 3 }, "unexpected input".to_string()));
}

#[test]
fn unparsable_input_is_an_error() {
    assert_eq!(error("(x"), (Span { start: 0, end: 2 }, "could not parse input".to_string()));
    assert_eq!(error(""), (Span { start: 0, end: 0 }, "could not parse input".to_string()));
}

#[test]
fn unicode_whitespace_separates_tokens() {
    assert!(matches!(syntax("\u{3000}unit\u{a0}"), Syntax::Unit));
}

#[test]
fn displayed_numbers_read_back() {
    for n in [0usize, 7, 10, 99, 1000, 123456789, usize::MAX] {
        let text = lamuda::term::Term::Nat { value: n }.to_string();
        match syntax(&text) {
            Syntax::Nat { value } => assert_eq!(value, n),
            _ => panic!(),
        }
    }
}

#[test]
fn spans_are_byte_offsets() {
    // U+3000 takes three bytes, U+00A0 two.
    match syntax("\u{3000}f\u{a0}x") {
        Syntax::App { callee, arg } => {
            assert_eq!(callee.span, Span { start: 3, end: 4 });
            assert_eq!(arg.span, Span { start: 6, end: 7 });
        }
        _ => panic!(),
    }
    assert_eq!(error("f\u{a0})"), (Span { start: 3, end: 4 }, "unexpected input".to_string()));
    assert_eq!(error("(\u{a0}"), (Span { start: 0, end: 3 }, "could not parse input".to_string()));
}
