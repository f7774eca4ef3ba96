use lamuda::check::{check_command, check_syntax};
use lamuda::context::{GlobalContext, LocalContext};
use lamuda::env::Env;
use lamuda::normalize::normalize;
use lamuda::parse::repl_cmd;
use lamuda::repl_cmd::ReplCmd;

/// A REPL session: the constants defined so far.
struct Session {
    global: GlobalContext,
    local: LocalContext,
    env: Env,
}

impl Session {
    fn new() -> Self {
        Session { global: GlobalContext::new(), local: LocalContext::new(), env: Env::new() }
    }

    /// Runs one line; a term gives its normal form and type.
    fn run(&mut self, input: &str) -> Result<Option<(String, String)>, String> {
        let cmd = repl_cmd(input).map_err(|es| es[0].message.clone())?;
        match cmd {
            ReplCmd::Command { command } => {
                assert!(command.within_limits());
                self.global = check_command(&command, &self.global, &mut self.local, &mut self.env)
                    .map_err(|es| es[0].message.clone())?;
                Ok(None)
            }
            ReplCmd::Syntax { syntax } => {
                assert!(syntax.within_limits());
                let (term, typ) = check_syntax(&syntax, &self.global, &self.local, &self.env)
                    .map_err(|es| es[0].message.clone())?;
                let norm = normalize(&term, &self.global, &self.env).map_err(|e| format!("{:?}", e))?;
                Ok(Some((norm.to_string(), typ.to_string())))
            }
        }
    }

    fn term(&mut self, input: &str) -> (String, String) {
        self.run(input).unwrap().unwrap()
    }

    fn error(&mut self, input: &str) -> String {
        self.run(input).unwrap_err()
    }
}

fn pair(a: &str, b: &str) -> (String, String) {
    (a.to_string(), b.to_string())
}

#[test]
fn unit_has_type_unit() {
    assert_eq!(Session::new().term("unit"), pair("unit", "Unit"));
}

#[test]
fn universes_and_base_types() {
    let mut s = Session::new();
    assert_eq!(s.term("Prop"), pair("Prop", "Type"));
    assert_eq!(s.term("Type"), pair("Type", "Type 1"));
    assert_eq!(s.term("Type 2"), pair("Type 2", "Type 3"));
    assert_eq!(s.term("Sort 0"), pair("Prop", "Type"));
    assert_eq!(s.term("Unit"), pair("Unit", "Type"));
    assert_eq!(s.term("Nat"), pair("Nat", "Type"));
    assert_eq!(s.term("42"), pair("42", "Nat"));
}

#[test]
fn function_and_its_product_type() {
    let mut s = Session::new();
    assert_eq!(s.term("fun (x : Nat) => x"), pair("fun (x : Nat) => 0#x", "(x : Nat) -> Nat"));
    assert_eq!(
        s.term("fun (x y : Nat) => x"),
        pair("fun (x : Nat) => fun (y : Nat) => 1#x", "(x : Nat) -> (y : Nat) -> Nat")
    );
}

#[test]
fn application_reduces() {
    let mut s = Session::new();
    assert_eq!(s.term("(fun (x : Nat) => x) 5"), pair("5", "Nat"));
    assert_eq!(s.term("(fun (x y : Nat) => y) 1 2"), pair("2", "Nat"));
}

#[test]
fn let_unfolds() {
    let mut s = Session::new();
    assert_eq!(s.term("let x := 3; x"), pair("3", "Nat"));
    assert_eq!(s.term("let f (n : Nat) := n; f 7"), pair("7", "Nat"));
}

#[test]
fn product_types() {
    let mut s = Session::new();
    assert_eq!(s.term("Nat -> Nat"), pair("Nat -> Nat", "Type"));
    assert_eq!(s.term("(Nat -> Nat) -> Unit"), pair("(Nat -> Nat) -> Unit", "Type"));
    assert_eq!(s.term("(A : Type) -> A"), pair("(A : Type) -> 0#A", "Type 1"));
    assert_eq!(s.term("Prop -> Prop"), pair("Prop -> Prop", "Type"));
    assert_eq!(s.term("Type -> Prop"), pair("Type -> Prop", "Type 1"));
}

#[test]
fn unbound_variable_is_an_error() {
    assert_eq!(Session::new().error("y"), "unbound variable");
}

#[test]
fn applying_a_non_function_is_an_error() {
    assert_eq!(Session::new().error("5 5"), "not a function");
}

#[test]
fn argument_of_wrong_type_is_an_error() {
    assert_eq!(Session::new().error("(fun (x : Nat) => x) unit"), "type mismatch: Unit and Nat");
}

#[test]
fn parameter_type_must_be_a_type() {
    assert_eq!(Session::new().error("fun (x : 5) => x"), "not a sort");
    assert_eq!(Session::new().error("unit -> Nat"), "not a sort");
}

#[test]
fn definitions_are_used_by_name() {
    let mut s = Session::new();
    assert_eq!(s.run("def id (A : Type) (x : A) := x"), Ok(None));
    assert_eq!(s.term("id Nat 5"), pair("5", "Nat"));
    assert_eq!(s.term("id"), pair("fun (A : Type) => fun (x : 0#A) => 0#x", "(A : Type) -> (x : 0#A) -> 1#A"));
}

#[test]
fn a_name_is_defined_once() {
    let mut s = Session::new();
    assert_eq!(s.run("def one := 1"), Ok(None));
    assert_eq!(s.error("def one := 2"), "one is already defined");
    assert_eq!(s.term("one"), pair("1", "Nat"));
}

#[test]
fn inductive_defines_type_constructors_and_recursor() {
    let mut s = Session::new();
    assert_eq!(s.run("inductive Bool : Type | true : Bool | false : Bool"), Ok(None));
    assert_eq!(s.term("Bool"), pair("Bool", "Type"));
    assert_eq!(s.term("true"), pair("true", "Bool"));
    assert_eq!(s.term("false"), pair("false", "Bool"));
    assert_eq!(
        s.term("recBool"),
        pair(
            "recBool",
            "(motive : Bool -> Type) -> 0#motive true -> 1#motive false -> (t : Bool) -> 3#motive 0#t"
        )
    );
    assert_eq!(s.error("def true := unit"), "true is already defined");
    assert_eq!(s.error("inductive Bool : Type"), "Bool is already defined");
}

#[test]
fn inductive_field_must_be_positive() {
    let mut s = Session::new();
    assert_eq!(
        s.error("inductive Bad : Type | mk : (Bad -> Nat) -> Bad"),
        "found invalid occurrence of inductive type"
    );
}

#[test]
fn constructor_must_build_the_inductive_type() {
    let mut s = Session::new();
    assert_eq!(s.error("inductive T : Type | mk : Nat"), "unecpected resulting type of constructor");
}

#[test]
fn inductive_type_must_be_a_sort() {
    assert_eq!(Session::new().error("inductive T : 5"), "not a sort");
}

#[test]
fn failed_command_changes_nothing() {
    let mut s = Session::new();
    assert!(s.run("inductive T : Type | mk : Nat").is_err());
    assert_eq!(s.error("T"), "unbound variable");
    assert_eq!(s.run("inductive T : Type | mk : T"), Ok(None));
    assert_eq!(s.term("mk"), pair("mk", "T"));
}

#[test]
fn inductive_with_parameters() {
    let mut s = Session::new();
    assert_eq!(s.run("inductive Box (A : Type) : Type | box : Nat -> Unit"), Err("unecpected resulting type of constructor".to_string()));
    let mut s = Session::new();
    assert_eq!(s.run("inductive Wrap (A : Type) : Type"), Ok(None));
    assert_eq!(s.term("Wrap"), pair("Wrap", "(A : Type) -> Type"));
}

#[test]
fn type_of_a_let_escapes_its_scope() {
    // The type of a `let` is its body's type as elaborated under the `let`,
    // so here the function's type refers to a binder that is gone when the
    // application normalizes it.
    assert_eq!(
        Session::new().error("(let A := Nat; fun (x : A) => x) 5"),
        "normalization met a variable outside its environment"
    );
}

#[test]
fn local_context_and_environment_are_unchanged_by_commands() {
    let mut s = Session::new();
    assert_eq!(s.run("def k := unit"), Ok(None));
    assert!(s.local.get("k").is_none());
    assert_eq!(s.env.len(), 0);
}

#[test]
fn later_commands_keep_earlier_results() {
    let mut s = Session::new();
    assert_eq!(s.run("def id := fun (A : Type) (x : A) => x"), Ok(None));
    let before = s.term("id Nat 3");
    assert_eq!(before, pair("3", "Nat"));
    assert_eq!(s.run("inductive Bool : Type | tt : Bool | ff : Bool"), Ok(None));
    assert_eq!(s.run("def two := id Nat 2"), Ok(None));
    assert_eq!(s.term("id Nat 3"), before);
    assert_eq!(s.term("id"), pair("fun (A : Type) => fun (x : 0#A) => 0#x", "(A : Type) -> (x : 0#A) -> 1#A"));
}
