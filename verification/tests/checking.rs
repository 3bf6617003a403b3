use tinyfn::expr::{Atom, Definition, Expression};
use tinyfn::lexer::tokenize;
use tinyfn::module::{check_expr, insert_unique, is_bound, Module, Vars};
use tinyfn::parser::parse;
use tinyfn::validity::{ModuleError, ARGS_MAX_SIZE};

fn check(source: &str) -> Result<Module, ModuleError> {
    Module::new(parse(tokenize(source).unwrap()).unwrap())
}

fn error_of(source: &str) -> ModuleError {
    check(source).err().unwrap()
}

fn name(s: &str) -> String {
    s.to_string()
}

#[test]
fn well_formed_program_is_accepted() {
    let module = check(
        "
fn (id x) { x }
fn (flip f x y) { (apply f y x) }
fn (polynomial x) {
  let x2 = (* x x);
  let x3 = (* x x2);
  (+ x2 x3)
}
fn (not x) {
  match x {
    0 => { 1 }
    1 => { 0 }
    _ => { x }
  }
}
fn (main) { let p = (papp flip); (polynomial 3) }",
    )
    .unwrap();
    assert_eq!(module.get("id").unwrap().params, vec![name("x")]);
    assert!(module.get("nope").is_none());
    assert_eq!(module.toplevel().len(), 5);
    assert!(module.toplevel().contains_key("not"));
}

#[test]
fn later_definition_of_a_name_stands() {
    let module = check("fn (f) { 1 } fn (f x) { x }").unwrap();
    assert_eq!(module.toplevel().len(), 1);
    assert_eq!(module.get("f").unwrap().params, vec![name("x")]);
}

#[test]
fn names_are_listed_once_in_the_order_of_their_first_definition() {
    let module = check("fn (b) { 1 } fn (a) { 2 } fn (b x) { x } fn (c) { (a) }").unwrap();
    let names: Vec<&str> = module.names().iter().map(|n| n.as_str()).collect();
    assert_eq!(names, vec!["b", "a", "c"]);
    assert_eq!(module.get("b").unwrap().params, vec![name("x")]);
    let module = check("").unwrap();
    assert!(module.names().is_empty());
}

#[test]
fn functions_may_call_functions_defined_later() {
    assert!(check("fn (a) { (b 1) } fn (b x) { x }").is_ok());
}

#[test]
fn too_many_parameters() {
    assert_eq!(ARGS_MAX_SIZE, 8);
    assert!(check("fn (f a b c d e f g h) { a }").is_ok());
    assert_eq!(
        error_of("fn (f a b c d e f g h i) { a }"),
        ModuleError::TooManyParameters(name("f"))
    );
}

#[test]
fn repeated_parameter() {
    assert_eq!(error_of("fn (f a b a) { a }"), ModuleError::Redefined(name("a")));
}

#[test]
fn unbound_variable() {
    assert_eq!(error_of("fn (f a) { b }"), ModuleError::UnboundVariable(name("b")));
    assert_eq!(
        error_of("fn (f a) { (+ a b) }"),
        ModuleError::UnboundVariable(name("b"))
    );
    assert_eq!(
        error_of("fn (f a) { (+ c a) }"),
        ModuleError::UnboundVariable(name("c"))
    );
    assert_eq!(
        error_of("fn (f a) { (f b) }"),
        ModuleError::UnboundVariable(name("b"))
    );
    assert_eq!(
        error_of("fn (f a) { (apply g a) }"),
        ModuleError::UnboundVariable(name("g"))
    );
    assert_eq!(
        error_of("fn (f a) { (apply a g) }"),
        ModuleError::UnboundVariable(name("g"))
    );
    assert_eq!(
        error_of("fn (f a b) { (papp f c) }"),
        ModuleError::UnboundVariable(name("c"))
    );
    assert_eq!(
        error_of("fn (f a) { match b { } }"),
        ModuleError::UnboundVariable(name("b"))
    );
    assert_eq!(
        error_of("fn (f a) { let b = c; b }"),
        ModuleError::UnboundVariable(name("c"))
    );
}

#[test]
fn variable_is_not_in_scope_in_its_own_value() {
    assert_eq!(
        error_of("fn (f) { let a = a; a }"),
        ModuleError::UnboundVariable(name("a"))
    );
}

#[test]
fn variable_of_a_branch_is_not_in_scope_outside_it() {
    assert_eq!(
        error_of("fn (f x) { match x { 0 => { let y = 1; y } _ => { y } } }"),
        ModuleError::UnboundVariable(name("y"))
    );
    assert_eq!(
        error_of("fn (f x) { let z = match x { 0 => { let y = 1; y } _ => { 2 } }; y }"),
        ModuleError::UnboundVariable(name("y"))
    );
}

#[test]
fn variable_of_a_nested_let_stays_in_scope() {
    assert!(check("fn (f) { let a = let b = 1; b; (+ a b) }").is_ok());
}

#[test]
fn variable_defined_twice() {
    assert_eq!(
        error_of("fn (f a) { let a = 1; a }"),
        ModuleError::Redefined(name("a"))
    );
    assert_eq!(
        error_of("fn (f) { let a = 1; let a = 2; a }"),
        ModuleError::Redefined(name("a"))
    );
    assert_eq!(
        error_of("fn (f x) { match x { 0 => { let y = 1; y } _ => { let y = 2; y } } }"),
        ModuleError::Redefined(name("y"))
    );
}

#[test]
fn same_variable_in_two_functions_is_fine() {
    assert!(check("fn (f a) { let b = a; b } fn (g a) { let b = a; b }").is_ok());
}

#[test]
fn unbound_function() {
    assert_eq!(
        error_of("fn (f a) { (g a) }"),
        ModuleError::UnboundFunction(name("g"))
    );
    assert_eq!(
        error_of("fn (f a) { (papp g a) }"),
        ModuleError::UnboundFunction(name("g"))
    );
}

#[test]
fn wrong_number_of_arguments() {
    assert_eq!(
        error_of("fn (f a) { (f a a) }"),
        ModuleError::WrongArgumentCount(name("f"))
    );
    assert_eq!(
        error_of("fn (f a) { (f) }"),
        ModuleError::WrongArgumentCount(name("f"))
    );
}

#[test]
fn partial_application_must_stay_below_the_arity() {
    assert!(check("fn (f a b) { (papp f a) }").is_ok());
    assert_eq!(
        error_of("fn (f a b) { (papp f a b) }"),
        ModuleError::ExceedsArity(name("f"))
    );
    assert_eq!(error_of("fn (f) { (papp f) }"), ModuleError::ExceedsArity(name("f")));
}

#[test]
fn too_many_arguments() {
    assert!(check("fn (f a) { (apply a 1 2 3 4 5 6 7) }").is_ok());
    assert_eq!(
        error_of("fn (f a) { (apply a 1 2 3 4 5 6 7 8) }"),
        ModuleError::TooManyArguments
    );
    assert_eq!(
        error_of("fn (f a) { (f 1 2 3 4 5 6 7 8 9) }"),
        ModuleError::TooManyArguments
    );
    assert_eq!(
        error_of("fn (f a) { (papp f 1 2 3 4 5 6 7 8) }"),
        ModuleError::TooManyArguments
    );
}

#[test]
fn repeated_pattern() {
    assert_eq!(
        error_of("fn (f a) { match a { 1 => { 1 } 2 => { 2 } 1 => { 3 } } }"),
        ModuleError::RepeatedPattern(1)
    );
}

#[test]
fn first_error_in_the_order_of_the_definitions() {
    assert_eq!(
        error_of("fn (f a) { b } fn (g a) { (h a) }"),
        ModuleError::UnboundVariable(name("b"))
    );
    assert_eq!(
        error_of("fn (g a) { (h a) } fn (f a) { b }"),
        ModuleError::UnboundFunction(name("h"))
    );
}

#[test]
fn variables_in_scope_and_defined() {
    let mut vars = Vars::new();
    assert_eq!(vars.depth(), 0);
    assert_eq!(
        is_bound(&name("x"), &vars),
        Err(ModuleError::UnboundVariable(name("x")))
    );
    assert_eq!(insert_unique(&name("x"), &mut vars), Ok(()));
    assert_eq!(insert_unique(&name("y"), &mut vars), Ok(()));
    assert_eq!(vars.depth(), 2);
    assert_eq!(is_bound(&name("x"), &vars), Ok(()));
    assert_eq!(
        insert_unique(&name("x"), &mut vars),
        Err(ModuleError::Redefined(name("x")))
    );
    vars.leave(1);
    assert_eq!(vars.depth(), 1);
    assert_eq!(is_bound(&name("x"), &vars), Ok(()));
    assert_eq!(
        is_bound(&name("y"), &vars),
        Err(ModuleError::UnboundVariable(name("y")))
    );
    assert_eq!(
        insert_unique(&name("y"), &mut vars),
        Err(ModuleError::Redefined(name("y")))
    );
}

#[test]
fn expression_is_checked_against_the_functions_of_a_module() {
    let module = check("fn (id x) { x }").unwrap();
    let mut vars = Vars::new();
    let expr = Expression::Let(
        name("a"),
        Box::new(Expression::Call(name("id"), vec![Atom::Lit(1)])),
        Box::new(Expression::Unit(Atom::Var(name("a")))),
    );
    assert_eq!(check_expr(&expr, &mut vars, module.toplevel()), Ok(()));
    assert_eq!(vars.depth(), 1);
    assert_eq!(is_bound(&name("a"), &vars), Ok(()));
}

#[test]
fn definitions_are_taken_as_given() {
    let def = Definition {
        name: name("k"),
        params: vec![],
        body: Expression::Unit(Atom::Lit(1)),
    };
    let module = Module::new(vec![def]).unwrap();
    assert_eq!(module.get("k").unwrap().body, Expression::Unit(Atom::Lit(1)));
}
